//! Call graph nodes of the resolver's view: signatures shown as written,
//! and every node's source listed.
use vstd::prelude::*;
use crate::call_tree::{connector_spec, continuation_spec};
use crate::strings::push_str;

verus! {

/// A node in a call graph.
///
/// Each node represents a function call that may contain child calls.
#[derive(Debug)]
pub struct CallGraphNode {
    /// Human-readable signature, e.g. `Main::execute(uint256)`.
    pub signature: String,
    /// The contract name that defines this function.
    pub contract_name: String,
    /// The source file path.
    pub file: String,
    /// Visibility: `external`, `public`, `internal`, `private`.
    pub visibility: String,
    /// Source location range for the function (offset:length).
    pub src: String,
    /// Calls made within this function.
    pub children: Vec<CallGraphNode>,
}

/// One rendered line: `prefix`, connector, signature and visibility.
pub open spec fn line_of(n: CallGraphNode, prefix: Seq<char>, is_last: bool) -> Seq<char> {
    prefix + connector_spec(is_last) + n.signature@ + " ("@ + n.visibility@ + ")\n"@
}

/// Rendering of children `cs[i..]` under `prefix`, each followed by its own
/// children indented one level further.
pub open spec fn render_list(cs: Seq<CallGraphNode>, prefix: Seq<char>, i: int) -> Seq<char>
    decreases cs, cs.len() - i,
{
    if 0 <= i < cs.len() {
        let is_last = i == cs.len() - 1;
        line_of(cs[i], prefix, is_last) + render_list(cs[i].children@, prefix + continuation_spec(is_last), 0)
            + render_list(cs, prefix, i + 1)
    } else {
        Seq::empty()
    }
}

/// The tree view: the root line, then its children.
pub open spec fn render_node(n: CallGraphNode) -> Seq<char> {
    n.signature@ + " ("@ + n.visibility@ + ")\n"@ + render_list(n.children@, Seq::empty(), 0)
}

/// `(file, src)` of the nodes of `cs[i..]` and their descendants, depth first.
pub open spec fn srcs_of_list(cs: Seq<CallGraphNode>, i: int) -> Seq<(Seq<char>, Seq<char>)>
    decreases cs, cs.len() - i,
{
    if 0 <= i < cs.len() {
        seq![(cs[i].file@, cs[i].src@)] + srcs_of_list(cs[i].children@, 0) + srcs_of_list(cs, i + 1)
    } else {
        Seq::empty()
    }
}

/// `(file, src)` of `n` and its descendants, depth first.
pub open spec fn srcs_of(n: CallGraphNode) -> Seq<(Seq<char>, Seq<char>)> {
    seq![(n.file@, n.src@)] + srcs_of_list(n.children@, 0)
}

/// The views of a list of `(file, src)` pairs.
pub open spec fn pair_views(v: Seq<(String, String)>) -> Seq<(Seq<char>, Seq<char>)> {
    v.map_values(|p: (String, String)| (p.0@, p.1@))
}

fn render_list_exec(cs: &Vec<CallGraphNode>, prefix: &String, out: &mut String)
    ensures
        final(out)@ == old(out)@ + render_list(cs@, prefix@, 0),
    decreases cs@,
{
    let ghost start = old(out)@;
    let len = cs.len();
    let mut i: usize = 0;
    while i < len
        invariant
            len == cs@.len(),
            i <= len,
            out@ + render_list(cs@, prefix@, i as int) == start + render_list(cs@, prefix@, 0),
        decreases len - i,
    {
        let child = &cs[i];
        let is_last = i == len - 1;
        let ghost o0 = out@;
        push_str(out, prefix.as_str());
        if is_last {
            push_str(out, "\u{2514}\u{2500}\u{2500} ");
        } else {
            push_str(out, "\u{251c}\u{2500}\u{2500} ");
        }
        push_str(out, child.signature.as_str());
        push_str(out, " (");
        push_str(out, child.visibility.as_str());
        push_str(out, ")\n");
        let mut child_prefix = String::from_str(prefix.as_str());
        if is_last {
            push_str(&mut child_prefix, "    ");
        } else {
            push_str(&mut child_prefix, "\u{2502}   ");
        }
        assert(out@ =~= o0 + line_of(cs@[i as int], prefix@, is_last));
        assert(child_prefix@ == prefix@ + continuation_spec(is_last));
        proof {
            assert(decreases_to!(cs@ => cs@[i as int].children@));
        }
        render_list_exec(&child.children, &child_prefix, out);
        assert(render_list(cs@, prefix@, i as int) == line_of(cs@[i as int], prefix@, is_last)
            + render_list(cs@[i as int].children@, prefix@ + continuation_spec(is_last), 0)
            + render_list(cs@, prefix@, i + 1));
        assert(out@ + render_list(cs@, prefix@, i + 1) =~= o0 + render_list(cs@, prefix@, i as int));
        i = i + 1;
    }
}

fn collect_srcs(n: &CallGraphNode, out: &mut Vec<(String, String)>)
    ensures
        pair_views(final(out)@) == pair_views(old(out)@) + srcs_of(*n),
    decreases n,
{
    let ghost start = pair_views(out@);
    out.push((n.file.clone(), n.src.clone()));
    assert(pair_views(out@) =~= start + seq![(n.file@, n.src@)]);
    let ghost after_self = pair_views(out@);
    let len = n.children.len();
    let mut i: usize = 0;
    while i < len
        invariant
            len == n.children@.len(),
            i <= len,
            pair_views(out@) + srcs_of_list(n.children@, i as int) == after_self + srcs_of_list(n.children@, 0),
        decreases len - i,
    {
        let ghost o0 = pair_views(out@);
        proof {
            assert(decreases_to!(n => n.children@[i as int]));
        }
        collect_srcs(&n.children[i], out);
        assert(srcs_of_list(n.children@, i as int) == srcs_of(n.children@[i as int]) + srcs_of_list(n.children@, i + 1));
        assert(pair_views(out@) + srcs_of_list(n.children@, i + 1) =~= o0 + srcs_of_list(n.children@, i as int));
        i = i + 1;
    }
    assert(pair_views(out@) =~= start + srcs_of(*n));
}

impl CallGraphNode {
    /// Create a new call graph node.
    pub fn new(
        signature: &str,
        contract_name: &str,
        file: String,
        visibility: &str,
        src: &str,
        children: Vec<CallGraphNode>,
    ) -> (r: Self)
        ensures
            r.signature@ == signature@,
            r.contract_name@ == contract_name@,
            r.file == file,
            r.visibility@ == visibility@,
            r.src@ == src@,
            r.children == children,
    {
        CallGraphNode {
            signature: String::from_str(signature),
            contract_name: String::from_str(contract_name),
            file,
            visibility: String::from_str(visibility),
            src: String::from_str(src),
            children,
        }
    }

    /// Flatten the call graph into a depth-first list of `(file, src)` pairs,
    /// one per node.
    pub fn flatten_sources(&self) -> (r: Vec<(String, String)>)
        ensures
            pair_views(r@) == srcs_of(*self),
    {
        let mut out: Vec<(String, String)> = Vec::new();
        assert(pair_views(out@) =~= Seq::<(Seq<char>, Seq<char>)>::empty());
        collect_srcs(self, &mut out);
        assert(Seq::<(Seq<char>, Seq<char>)>::empty() + srcs_of(*self) =~= srcs_of(*self));
        out
    }

    /// The tree view of this call graph (the rendering `Display` gives).
    pub fn to_string(&self) -> (s: String)
        ensures
            s@ == render_node(*self),
    {
        let mut out = String::from_str(self.signature.as_str());
        push_str(&mut out, " (");
        push_str(&mut out, self.visibility.as_str());
        push_str(&mut out, ")\n");
        let prefix = String::new();
        render_list_exec(&self.children, &prefix, &mut out);
        out
    }
}

} // verus!
