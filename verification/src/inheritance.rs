//! Inheritance trees: a contract and its base contracts, flattened to a
//! source list or rendered as a tree.
use vstd::prelude::*;
use crate::strings::push_str;

verus! {

/// A node in an inheritance tree.
#[derive(Debug)]
pub struct InheritanceNode {
    /// Contract name.
    pub name: String,
    /// Source file of the contract.
    pub file: String,
    /// Base contracts, in declaration order.
    pub parents: Vec<InheritanceNode>,
}

/// `(file, name)` of the nodes of `ps[i..]` and all their ancestors,
/// depth-first.
pub open spec fn list_pairs(ps: Seq<InheritanceNode>, i: int) -> Seq<(Seq<char>, Seq<char>)>
    decreases ps, ps.len() - i,
{
    if 0 <= i < ps.len() {
        seq![(ps[i].file@, ps[i].name@)] + list_pairs(ps[i].parents@, 0) + list_pairs(ps, i + 1)
    } else {
        Seq::empty()
    }
}

/// `(file, name)` of a node and all its ancestors, depth-first.
pub open spec fn inheritance_pairs(n: InheritanceNode) -> Seq<(Seq<char>, Seq<char>)> {
    seq![(n.file@, n.name@)] + list_pairs(n.parents@, 0)
}

/// Rendering of `ps[i..]` under `prefix`, each followed by its own parents.
pub open spec fn render_parents(ps: Seq<InheritanceNode>, prefix: Seq<char>, i: int) -> Seq<char>
    decreases ps, ps.len() - i,
{
    if 0 <= i < ps.len() {
        let is_last = i == ps.len() - 1;
        prefix + crate::call_tree::connector_spec(is_last) + ps[i].name@ + "\n"@ + render_parents(
            ps[i].parents@,
            prefix + crate::call_tree::continuation_spec(is_last),
            0,
        ) + render_parents(ps, prefix, i + 1)
    } else {
        Seq::empty()
    }
}

/// The inheritance tree view: the name, then the parents as a tree.
pub open spec fn render_inheritance(n: InheritanceNode) -> Seq<char> {
    n.name@ + "\n"@ + render_parents(n.parents@, Seq::empty(), 0)
}

/// View of a list of string pairs.
pub open spec fn pair_list_view(v: Seq<(String, String)>) -> Seq<(Seq<char>, Seq<char>)> {
    v.map_values(|p: (String, String)| (p.0@, p.1@))
}

fn collect_pairs(n: &InheritanceNode, out: &mut Vec<(String, String)>)
    ensures
        pair_list_view(final(out)@) == pair_list_view(old(out)@) + inheritance_pairs(*n),
    decreases n,
{
    let ghost start = pair_list_view(out@);
    out.push((n.file.clone(), n.name.clone()));
    assert(pair_list_view(out@) =~= start + seq![(n.file@, n.name@)]);
    let ghost after_self = pair_list_view(out@);
    let len = n.parents.len();
    let mut i: usize = 0;
    while i < len
        invariant
            len == n.parents@.len(),
            i <= len,
            pair_list_view(out@) + list_pairs(n.parents@, i as int) == after_self + list_pairs(
                n.parents@,
                0,
            ),
        decreases len - i,
    {
        let ghost o0 = pair_list_view(out@);
        proof {
            assert(decreases_to!(n => n.parents@[i as int]));
        }
        collect_pairs(&n.parents[i], out);
        assert(list_pairs(n.parents@, i as int) == inheritance_pairs(n.parents@[i as int])
            + list_pairs(n.parents@, i + 1));
        assert(pair_list_view(out@) + list_pairs(n.parents@, i + 1) =~= o0 + list_pairs(
            n.parents@,
            i as int,
        ));
        i = i + 1;
    }
    assert(pair_list_view(out@) =~= start + inheritance_pairs(*n));
}

fn render_parents_exec(ps: &Vec<InheritanceNode>, prefix: &String, out: &mut String)
    ensures
        final(out)@ == old(out)@ + render_parents(ps@, prefix@, 0),
    decreases ps@,
{
    let ghost start = old(out)@;
    let len = ps.len();
    let mut i: usize = 0;
    while i < len
        invariant
            len == ps@.len(),
            i <= len,
            out@ + render_parents(ps@, prefix@, i as int) == start + render_parents(ps@, prefix@, 0),
        decreases len - i,
    {
        let p = &ps[i];
        let is_last = i == len - 1;
        let ghost o0 = out@;
        push_str(out, prefix.as_str());
        if is_last {
            push_str(out, "\u{2514}\u{2500}\u{2500} ");
        } else {
            push_str(out, "\u{251c}\u{2500}\u{2500} ");
        }
        push_str(out, p.name.as_str());
        push_str(out, "\n");
        let mut child_prefix = String::from_str(prefix.as_str());
        if is_last {
            push_str(&mut child_prefix, "    ");
        } else {
            push_str(&mut child_prefix, "\u{2502}   ");
        }
        assert(out@ =~= o0 + (prefix@ + crate::call_tree::connector_spec(is_last) + p.name@
            + "\n"@));
        proof {
            assert(decreases_to!(ps@ => ps@[i as int].parents@));
        }
        render_parents_exec(&p.parents, &child_prefix, out);
        assert(out@ + render_parents(ps@, prefix@, i + 1) =~= o0 + render_parents(
            ps@,
            prefix@,
            i as int,
        ));
        i = i + 1;
    }
}

impl InheritanceNode {
    /// Flatten the inheritance tree into a depth-first list of
    /// `(file, name)` pairs.
    pub fn flatten_sources(&self) -> (r: Vec<(String, String)>)
        ensures
            pair_list_view(r@) == inheritance_pairs(*self),
    {
        let mut out: Vec<(String, String)> = Vec::new();
        assert(pair_list_view(out@) =~= Seq::<(Seq<char>, Seq<char>)>::empty());
        collect_pairs(self, &mut out);
        assert(pair_list_view(out@) =~= inheritance_pairs(*self));
        out
    }

    /// The tree view: the name, then each parent under a connector.
    pub fn to_string(&self) -> (s: String)
        ensures
            s@ == render_inheritance(*self),
    {
        let mut out = String::from_str(self.name.as_str());
        push_str(&mut out, "\n");
        let prefix = String::new();
        render_parents_exec(&self.parents, &prefix, &mut out);
        out
    }
}

} // verus!
