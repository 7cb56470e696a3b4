//! Call trees: nodes of a call graph, target matching, path extraction,
//! source flattening and the tree rendering of the call-graph view.
use vstd::prelude::*;
use crate::ids::{parse_function_target, target_spec, opt_view};
use crate::strings::{
    before_first, chars_eq, chars_of, find_exec, find_spec, is_first_occ, lemma_find_spec,
    push_range, push_str, split_once_spec, string_of_range,
};

verus! {

/// A node in a call graph.
///
/// Each node represents a function call that may contain child calls.
#[derive(Debug)]
pub struct CallGraphNode {
    /// Human-readable signature, e.g. `Main::execute(uint256)`.
    pub signature: String,
    /// The contract name that defines this function.
    pub contract_name: String,
    /// The source file path.
    pub file: String,
    /// Visibility: `external`, `public`, `internal`, `private`.
    pub visibility: String,
    /// Source location range for the function (offset:length).
    pub src: String,
    /// Calls made within this function.
    pub children: Vec<CallGraphNode>,
}

// ---------------------------------------------------------------------------
// Specification of the node queries
// ---------------------------------------------------------------------------

/// The text after the first `::` (empty when there is none).
pub open spec fn after_scope(sig: Seq<char>) -> Option<Seq<char>> {
    match split_once_spec(sig, seq![':', ':']) {
        Some((_, rest)) => Some(rest),
        None => None,
    }
}

/// Function name in a signature such as `Main::execute(uint256)`: the second
/// `::`-separated piece, cut at `(` and then at `<` (empty without `::`).
pub open spec fn func_name_spec(sig: Seq<char>) -> Seq<char> {
    match after_scope(sig) {
        Some(rest) => before_first(
            before_first(before_first(rest, seq![':', ':']), seq!['(']),
            seq!['<'],
        ),
        None => Seq::empty(),
    }
}

/// Parameter list of a signature: the text after the first `(` when the
/// signature ends in `)` (empty otherwise).
pub open spec fn signature_params_spec(sig: Seq<char>) -> Seq<char> {
    match split_once_spec(sig, seq!['(']) {
        Some((_, rest)) => if rest.len() > 0 && rest.last() == ')' {
            rest.subrange(0, rest.len() - 1)
        } else {
            Seq::empty()
        },
        None => Seq::empty(),
    }
}

/// A node with signature `sig` matches a function target (no contract part).
pub open spec fn matches_func_spec(sig: Seq<char>, func_target: Seq<char>) -> bool {
    let t = target_spec(func_target);
    &&& func_name_spec(sig) == t.0
    &&& match t.1 {
        Some(p) => signature_params_spec(sig) == p,
        None => true,
    }
}

/// A node matches a target: `Contract::function...` compares the contract
/// and the function part, any other target only the function part.
pub open spec fn matches_spec(contract: Seq<char>, sig: Seq<char>, target: Seq<char>) -> bool {
    match split_once_spec(target, seq![':', ':']) {
        Some((c, f)) => contract == c && matches_func_spec(sig, f),
        None => matches_func_spec(sig, target),
    }
}

impl CallGraphNode {
    /// This node matches `target`.
    pub open spec fn node_matches(&self, target: Seq<char>) -> bool {
        matches_spec(self.contract_name@, self.signature@, target)
    }

    /// This node or one of its descendants matches `target`.
    pub open spec fn reaches(&self, target: Seq<char>) -> bool
        decreases self,
    {
        self.node_matches(target) || exists|i: int|
            0 <= i < self.children@.len() && (#[trigger] self.children@[i]).reaches(target)
    }

    /// `n` is this node or one of its descendants.
    pub open spec fn in_tree(&self, n: CallGraphNode) -> bool
        decreases self,
    {
        n == *self || exists|i: int|
            0 <= i < self.children@.len() && (#[trigger] self.children@[i]).in_tree(n)
    }
}

// ---------------------------------------------------------------------------
// Executable queries
// ---------------------------------------------------------------------------

/// `sig[lo..hi]` up to the first occurrence of `c` (or all of it).
fn cut_at(v: &Vec<char>, lo: usize, hi: usize, c: char) -> (r: usize)
    requires
        lo <= hi <= v.len(),
    ensures
        lo <= r <= hi,
        v@.subrange(lo as int, r as int) == before_first(v@.subrange(lo as int, hi as int), seq![c]),
{
    let ghost s = v@.subrange(lo as int, hi as int);
    let mut k = lo;
    while k < hi && v[k] != c
        invariant
            lo <= k <= hi <= v.len(),
            s == v@.subrange(lo as int, hi as int),
            forall|m: int| lo <= m < k ==> v@[m] != c,
        decreases hi - k,
    {
        k = k + 1;
    }
    proof {
        assert forall|j: int| 0 <= j < k - lo implies !crate::strings::occurs_at(s, j, seq![c]) by {
            if crate::strings::occurs_at(s, j, seq![c]) {
                assert(s.subrange(j, j + 1)[0] == s[j]);
            }
        }
        if k < hi {
            assert(s.subrange(k - lo, k - lo + 1) =~= seq![c]);
            lemma_find_spec(s, seq![c], k - lo);
            assert(s.subrange(0, k - lo) =~= v@.subrange(lo as int, k as int));
        } else {
            crate::strings::lemma_find_none(s, seq![c]);
            assert(s =~= v@.subrange(lo as int, k as int));
        }
    }
    k
}

/// `v[lo..hi]` up to the first `::` (or all of it).
fn cut_at_scope(v: &Vec<char>, lo: usize, hi: usize) -> (r: usize)
    requires
        lo <= hi <= v.len(),
    ensures
        lo <= r <= hi,
        v@.subrange(lo as int, r as int) == before_first(
            v@.subrange(lo as int, hi as int),
            seq![':', ':'],
        ),
{
    let ghost s = v@.subrange(lo as int, hi as int);
    let mut k = lo;
    while k < hi && k + 1 < hi && !(v[k] == ':' && v[k + 1] == ':')
        invariant
            lo <= k <= hi <= v.len(),
            s == v@.subrange(lo as int, hi as int),
            forall|m: int| lo <= m < k ==> !(#[trigger] v@[m] == ':' && v@[m + 1] == ':'),
        decreases hi - k,
    {
        k = k + 1;
    }
    proof {
        assert forall|j: int| 0 <= j < k - lo implies !crate::strings::occurs_at(
            s,
            j,
            seq![':', ':'],
        ) by {
            if crate::strings::occurs_at(s, j, seq![':', ':']) {
                assert(s.subrange(j, j + 2)[0] == s[j]);
                assert(s.subrange(j, j + 2)[1] == s[j + 1]);
            }
        }
        if k < hi && k + 1 < hi {
            assert(s.subrange(k - lo, k - lo + 2) =~= seq![':', ':']);
            lemma_find_spec(s, seq![':', ':'], k - lo);
            assert(s.subrange(0, k - lo) =~= v@.subrange(lo as int, k as int));
        } else {
            assert forall|j: int| 0 <= j <= s.len() implies !crate::strings::occurs_at(
                s,
                j,
                seq![':', ':'],
            ) by {
                if crate::strings::occurs_at(s, j, seq![':', ':']) {
                    assert(s.subrange(j, j + 2)[0] == s[j]);
                    assert(s.subrange(j, j + 2)[1] == s[j + 1]);
                }
            }
            crate::strings::lemma_find_none(s, seq![':', ':']);
            assert(s =~= v@.subrange(lo as int, hi as int));
        }
    }
    if k < hi && k + 1 < hi {
        k
    } else {
        hi
    }
}

/// Function name in a signature (see [`func_name_spec`]).
pub fn func_name_of(sig: &str) -> (r: String)
    ensures
        r@ == func_name_spec(sig@),
{
    let v = chars_of(sig);
    let mut sep: Vec<char> = Vec::new();
    sep.push(':');
    sep.push(':');
    assert(sep@ == seq![':', ':']);
    assert(sep@.len() == 2);
    match find_exec(&v, &sep) {
        None => String::new(),
        Some(i) => {
            assert(crate::strings::occurs_at(v@, i as int, sep@));
            assert(i + 2 <= v.len());
            let lo = i + 2;
            let n = v.len();
            assert(v@.subrange(lo as int, n as int) == after_scope(sig@).unwrap());
            let a = cut_at_scope(&v, lo, n);
            let b = cut_at(&v, lo, a, '(');
            let c = cut_at(&v, lo, b, '<');
            string_of_range(&v, lo, c)
        },
    }
}

/// Parameter list of a signature (see [`signature_params_spec`]).
pub fn signature_params_of(sig: &str) -> (r: String)
    ensures
        r@ == signature_params_spec(sig@),
{
    let v = chars_of(sig);
    let mut open: Vec<char> = Vec::new();
    open.push('(');
    assert(open@ == seq!['(']);
    match find_exec(&v, &open) {
        None => String::new(),
        Some(i) => {
            let n = v.len();
            let ghost rest = v@.subrange(i + 1, n as int);
            if i + 1 < n && v[n - 1] == ')' {
                string_of_range(&v, i + 1, n - 1)
            } else {
                String::new()
            }
        },
    }
}

/// Whether a node with `signature` matches a function target.
pub fn matches_func_target(signature: &str, func_target: &str) -> (b: bool)
    ensures
        b == matches_func_spec(signature@, func_target@),
{
    let t = parse_function_target(func_target);
    let name = func_name_of(signature);
    let nv = chars_of(name.as_str());
    let tv = chars_of(t.name.as_str());
    if !chars_eq(&nv, &tv) {
        return false;
    }
    match t.params {
        Some(p) => {
            let sp = signature_params_of(signature);
            let a = chars_of(sp.as_str());
            let b = chars_of(p.as_str());
            chars_eq(&a, &b)
        },
        None => true,
    }
}

/// Whether a node (`contract`, `signature`) matches a target.
pub fn matches_target_parts(contract: &str, signature: &str, target: &str) -> (b: bool)
    ensures
        b == matches_spec(contract@, signature@, target@),
{
    let v = chars_of(target);
    let mut sep: Vec<char> = Vec::new();
    sep.push(':');
    sep.push(':');
    assert(sep@ == seq![':', ':']);
    assert(sep@.len() == 2);
    match find_exec(&v, &sep) {
        Some(i) => {
            assert(crate::strings::occurs_at(v@, i as int, sep@));
            assert(i + 2 <= v.len());
            let c = string_of_range(&v, 0, i);
            let f = string_of_range(&v, i + 2, v.len());
            let cv = chars_of(contract);
            let c2 = chars_of(c.as_str());
            if !chars_eq(&cv, &c2) {
                return false;
            }
            matches_func_target(signature, f.as_str())
        },
        None => matches_func_target(signature, target),
    }
}

impl CallGraphNode {
    /// Create a new call graph node.
    pub fn new(
        signature: &str,
        contract_name: &str,
        file: String,
        visibility: &str,
        src: &str,
        children: Vec<CallGraphNode>,
    ) -> (r: Self)
        ensures
            r.signature@ == signature@,
            r.contract_name@ == contract_name@,
            r.file == file,
            r.visibility@ == visibility@,
            r.src@ == src@,
            r.children == children,
    {
        CallGraphNode {
            signature: String::from_str(signature),
            contract_name: String::from_str(contract_name),
            file,
            visibility: String::from_str(visibility),
            src: String::from_str(src),
            children,
        }
    }

    /// Extract the function name from this node's signature.
    ///
    /// For example, `"Main::execute(uint256)"` gives `"execute"`.
    pub fn func_name(&self) -> (r: String)
        ensures
            r@ == func_name_spec(self.signature@),
    {
        func_name_of(self.signature.as_str())
    }

    /// Check if this single node matches the given target: a bare function
    /// name, a scoped `Contract::function` name, or a full signature.
    pub fn matches_target(&self, target: &str) -> (b: bool)
        ensures
            b == self.node_matches(target@),
    {
        matches_target_parts(self.contract_name.as_str(), self.signature.as_str(), target)
    }

    /// Check if this node or any of its descendants matches the target.
    pub fn reaches_target(&self, target: &str) -> (b: bool)
        ensures
            b == self.reaches(target@),
        decreases self,
    {
        if self.matches_target(target) {
            return true;
        }
        let mut i: usize = 0;
        while i < self.children.len()
            invariant
                i <= self.children.len(),
                !self.node_matches(target@),
                forall|j: int| 0 <= j < i ==> !(#[trigger] self.children@[j]).reaches(target@),
            decreases self.children.len() - i,
        {
            if self.children[i].reaches_target(target) {
                return true;
            }
            i = i + 1;
        }
        false
    }

    /// Find the first node, in depth-first order, that matches the target.
    pub fn find_matching(&self, target: &str) -> (r: Option<&CallGraphNode>)
        ensures
            r is Some <==> self.reaches(target@),
            r matches Some(n) ==> n.node_matches(target@) && first_match(*self, target@) == Some(*n),
            r is None ==> first_match(*self, target@) is None,
        decreases self,
    {
        if self.matches_target(target) {
            return Some(self);
        }
        let mut i: usize = 0;
        while i < self.children.len()
            invariant
                i <= self.children.len(),
                !self.node_matches(target@),
                forall|j: int| 0 <= j < i ==> !(#[trigger] self.children@[j]).reaches(target@),
                first_reaching(self.children@, target@, 0) == first_reaching(
                    self.children@,
                    target@,
                    i as int,
                ),
            decreases self.children.len() - i,
        {
            match self.children[i].find_matching(target) {
                Some(found) => {
                    return Some(found);
                },
                None => {},
            }
            i = i + 1;
        }
        None
    }
}

// ---------------------------------------------------------------------------
// Rendering
// ---------------------------------------------------------------------------

/// `sig` with its first `::` replaced by `.` (`str::replacen("::", ".", 1)`).
pub open spec fn dotted_spec(sig: Seq<char>) -> Seq<char> {
    match split_once_spec(sig, seq![':', ':']) {
        Some((a, b)) => a + "."@ + b,
        None => sig,
    }
}

/// Tree connector before the last child and before the others.
pub open spec fn connector_spec(is_last: bool) -> Seq<char> {
    if is_last {
        "\u{2514}\u{2500}\u{2500} "@
    } else {
        "\u{251c}\u{2500}\u{2500} "@
    }
}

/// Prefix extension below the last child and below the others.
pub open spec fn continuation_spec(is_last: bool) -> Seq<char> {
    if is_last {
        "    "@
    } else {
        "\u{2502}   "@
    }
}

/// One rendered line: `prefix`, connector, dotted signature, visibility.
pub open spec fn child_line(n: CallGraphNode, prefix: Seq<char>, is_last: bool) -> Seq<char> {
    prefix + connector_spec(is_last) + dotted_spec(n.signature@) + " ("@ + n.visibility@ + ")\n"@
}

/// Rendering of children `cs[i..]` under `prefix`, each followed by its own
/// children indented one level further.
pub open spec fn render_children(cs: Seq<CallGraphNode>, prefix: Seq<char>, i: int) -> Seq<char>
    decreases cs, cs.len() - i,
{
    if 0 <= i < cs.len() {
        let is_last = i == cs.len() - 1;
        child_line(cs[i], prefix, is_last) + render_children(
            cs[i].children@,
            prefix + continuation_spec(is_last),
            0,
        ) + render_children(cs, prefix, i + 1)
    } else {
        Seq::empty()
    }
}

/// The call-graph view of a tree: the dotted root line, then its children.
pub open spec fn render_tree(n: CallGraphNode) -> Seq<char> {
    dotted_spec(n.signature@) + " ("@ + n.visibility@ + ")\n"@ + render_children(
        n.children@,
        Seq::empty(),
        0,
    )
}

/// `sig` with its first `::` replaced by `.`.
pub fn dotted(sig: &str) -> (r: String)
    ensures
        r@ == dotted_spec(sig@),
{
    let v = chars_of(sig);
    let mut sep: Vec<char> = Vec::new();
    sep.push(':');
    sep.push(':');
    assert(sep@ == seq![':', ':']);
    match find_exec(&v, &sep) {
        Some(i) => {
            assert(crate::strings::occurs_at(v@, i as int, sep@));
            assert(i + 2 <= v.len());
            let mut r = string_of_range(&v, 0, i);
            push_str(&mut r, ".");
            push_range(&mut r, &v, i + 2, v.len());
            r
        },
        None => String::from_str(sig),
    }
}

fn render_children_exec(cs: &Vec<CallGraphNode>, prefix: &String, out: &mut String)
    ensures
        final(out)@ == old(out)@ + render_children(cs@, prefix@, 0),
    decreases cs@,
{
    let ghost start = old(out)@;
    let len = cs.len();
    let mut i: usize = 0;
    while i < len
        invariant
            len == cs@.len(),
            i <= len,
            out@ + render_children(cs@, prefix@, i as int) == start + render_children(
                cs@,
                prefix@,
                0,
            ),
        decreases len - i,
    {
        let child = &cs[i];
        let is_last = i == len - 1;
        let ghost o0 = out@;
        push_str(out, prefix.as_str());
        if is_last {
            push_str(out, "\u{2514}\u{2500}\u{2500} ");
        } else {
            push_str(out, "\u{251c}\u{2500}\u{2500} ");
        }
        let d = dotted(child.signature.as_str());
        push_str(out, d.as_str());
        push_str(out, " (");
        push_str(out, child.visibility.as_str());
        push_str(out, ")\n");
        let mut child_prefix = String::from_str(prefix.as_str());
        if is_last {
            push_str(&mut child_prefix, "    ");
        } else {
            push_str(&mut child_prefix, "\u{2502}   ");
        }
        assert(out@ =~= o0 + child_line(cs@[i as int], prefix@, is_last));
        assert(child_prefix@ == prefix@ + continuation_spec(is_last));
        proof {
            assert(decreases_to!(cs@ => cs@[i as int].children@));
        }
        render_children_exec(&child.children, &child_prefix, out);
        assert(render_children(cs@, prefix@, i as int) == child_line(cs@[i as int], prefix@, is_last)
            + render_children(cs@[i as int].children@, prefix@ + continuation_spec(is_last), 0)
            + render_children(cs@, prefix@, i + 1));
        assert(out@ + render_children(cs@, prefix@, i + 1) =~= o0 + render_children(cs@, prefix@, i as int));
        i = i + 1;
    }
}

impl CallGraphNode {
    /// The call-graph view of this tree (the rendering `Display` gives).
    pub fn to_string(&self) -> (s: String)
        ensures
            s@ == render_tree(*self),
    {
        let mut out = dotted(self.signature.as_str());
        push_str(&mut out, " (");
        push_str(&mut out, self.visibility.as_str());
        push_str(&mut out, ")\n");
        let prefix = String::new();
        render_children_exec(&self.children, &prefix, &mut out);
        out
    }
}

// ---------------------------------------------------------------------------
// Source flattening
// ---------------------------------------------------------------------------

/// `(file, src)` of the nodes of `cs[i..]` and all their descendants, in
/// depth-first order.
pub open spec fn list_srcs(cs: Seq<CallGraphNode>, i: int) -> Seq<(Seq<char>, Seq<char>)>
    decreases cs, cs.len() - i,
{
    if 0 <= i < cs.len() {
        seq![(cs[i].file@, cs[i].src@)] + list_srcs(cs[i].children@, 0) + list_srcs(cs, i + 1)
    } else {
        Seq::empty()
    }
}

/// `(file, src)` of `n` and all its descendants, in depth-first order.
pub open spec fn preorder_srcs(n: CallGraphNode) -> Seq<(Seq<char>, Seq<char>)> {
    seq![(n.file@, n.src@)] + list_srcs(n.children@, 0)
}

/// Append each pair of `xs` to `acc` in turn, skipping pairs with an empty
/// file and pairs already present.
pub open spec fn add_unique(acc: Seq<(Seq<char>, Seq<char>)>, xs: Seq<(Seq<char>, Seq<char>)>) -> Seq<
    (Seq<char>, Seq<char>),
>
    decreases xs.len(),
{
    if xs.len() == 0 {
        acc
    } else {
        let prev = add_unique(acc, xs.drop_last());
        let x = xs.last();
        if x.0.len() > 0 && !prev.contains(x) {
            prev.push(x)
        } else {
            prev
        }
    }
}

/// The sources list of a tree: its `(file, src)` pairs depth-first, without
/// empty files and without repeats.
pub open spec fn flatten_spec(n: CallGraphNode) -> Seq<(Seq<char>, Seq<char>)> {
    add_unique(Seq::empty(), preorder_srcs(n))
}

/// View of a list of string pairs.
pub open spec fn pairs_view(v: Seq<(String, String)>) -> Seq<(Seq<char>, Seq<char>)> {
    v.map_values(|p: (String, String)| (p.0@, p.1@))
}

pub proof fn lemma_add_unique_append(
    acc: Seq<(Seq<char>, Seq<char>)>,
    xs: Seq<(Seq<char>, Seq<char>)>,
    ys: Seq<(Seq<char>, Seq<char>)>,
)
    ensures
        add_unique(acc, xs + ys) == add_unique(add_unique(acc, xs), ys),
    decreases ys.len(),
{
    if ys.len() == 0 {
        assert(xs + ys =~= xs);
    } else {
        lemma_add_unique_append(acc, xs, ys.drop_last());
        assert((xs + ys).drop_last() =~= xs + ys.drop_last());
        assert((xs + ys).last() == ys.last());
    }
}

/// The flattening law: the result never repeats a pair, and holds exactly
/// the pairs already present plus the pairs of `xs` whose file is not empty.
pub proof fn lemma_add_unique_props(acc: Seq<(Seq<char>, Seq<char>)>, xs: Seq<(Seq<char>, Seq<char>)>)
    requires
        acc.no_duplicates(),
    ensures
        add_unique(acc, xs).no_duplicates(),
        forall|x: (Seq<char>, Seq<char>)|
            add_unique(acc, xs).contains(x) <==> (acc.contains(x) || (xs.contains(x) && x.0.len()
                > 0)),
    decreases xs.len(),
{
    if xs.len() > 0 {
        lemma_add_unique_props(acc, xs.drop_last());
        let prev = add_unique(acc, xs.drop_last());
        let x = xs.last();
        assert forall|y: (Seq<char>, Seq<char>)| xs.contains(y) <==> (xs.drop_last().contains(y) || y == x) by {
            if xs.contains(y) {
                let k = choose|k: int| 0 <= k < xs.len() && xs[k] == y;
                if k < xs.len() - 1 {
                    assert(xs.drop_last()[k] == y);
                }
            }
            if xs.drop_last().contains(y) {
                let k = choose|k: int| 0 <= k < xs.drop_last().len() && xs.drop_last()[k] == y;
                assert(xs[k] == y);
            }
            if y == x {
                assert(xs[xs.len() - 1] == y);
            }
        }
        if x.0.len() > 0 && !prev.contains(x) {
            assert forall|i: int, j: int| 0 <= i < j < prev.push(x).len() implies prev.push(x)[i] != prev.push(x)[j] by {
                if j == prev.len() {
                    assert(prev.contains(prev[i]));
                }
            }
            assert forall|y: (Seq<char>, Seq<char>)| prev.push(x).contains(y) <==> (prev.contains(y) || y == x) by {
                if prev.push(x).contains(y) {
                    let k = choose|k: int| 0 <= k < prev.push(x).len() && prev.push(x)[k] == y;
                    if k < prev.len() {
                        assert(prev[k] == y);
                    }
                }
                if prev.contains(y) {
                    let k = choose|k: int| 0 <= k < prev.len() && prev[k] == y;
                    assert(prev.push(x)[k] == y);
                }
                if y == x {
                    assert(prev.push(x)[prev.len() as int] == y);
                }
            }
        }
    }
}

fn contains_pair(out: &Vec<(String, String)>, file: &String, src: &String) -> (b: bool)
    ensures
        b == pairs_view(out@).contains((file@, src@)),
{
    let mut i: usize = 0;
    while i < out.len()
        invariant
            i <= out.len(),
            forall|j: int| 0 <= j < i ==> pairs_view(out@)[j] != (file@, src@),
        decreases out.len() - i,
    {
        if out[i].0 == *file && out[i].1 == *src {
            assert(pairs_view(out@)[i as int] == (file@, src@));
            return true;
        }
        i = i + 1;
    }
    false
}

fn flatten_node(n: &CallGraphNode, out: &mut Vec<(String, String)>)
    ensures
        pairs_view(final(out)@) == add_unique(pairs_view(old(out)@), preorder_srcs(*n)),
    decreases n,
{
    let ghost start = pairs_view(out@);
    let flen = n.file.as_str().unicode_len();
    if flen > 0 {
        if !contains_pair(out, &n.file, &n.src) {
            out.push((n.file.clone(), n.src.clone()));
            assert(pairs_view(out@) =~= start.push((n.file@, n.src@)));
        }
    }
    proof {
        let one = seq![(n.file@, n.src@)];
        assert(one.drop_last() =~= Seq::<(Seq<char>, Seq<char>)>::empty());
        assert(add_unique(start, one.drop_last()) == start);
        assert(one.last() == (n.file@, n.src@));
    }
    assert(pairs_view(out@) == add_unique(start, seq![(n.file@, n.src@)]));
    let ghost after_self = pairs_view(out@);
    let len = n.children.len();
    let mut i: usize = 0;
    while i < len
        invariant
            len == n.children@.len(),
            i <= len,
            add_unique(pairs_view(out@), list_srcs(n.children@, i as int)) == add_unique(
                after_self,
                list_srcs(n.children@, 0),
            ),
        decreases len - i,
    {
        let ghost o0 = pairs_view(out@);
        proof {
            assert(decreases_to!(n => n.children@[i as int]));
        }
        flatten_node(&n.children[i], out);
        proof {
            let c = n.children@[i as int];
            assert(list_srcs(n.children@, i as int) == preorder_srcs(c) + list_srcs(n.children@, i + 1));
            lemma_add_unique_append(o0, preorder_srcs(c), list_srcs(n.children@, i + 1));
        }
        i = i + 1;
    }
    proof {
        lemma_add_unique_append(start, seq![(n.file@, n.src@)], list_srcs(n.children@, 0));
    }
}

impl CallGraphNode {
    /// Flatten the call graph into a depth-first list of `(file, src)` pairs,
    /// skipping nodes without a file and pairs seen before.
    pub fn flatten_sources(&self) -> (r: Vec<(String, String)>)
        ensures
            pairs_view(r@) == flatten_spec(*self),
            pairs_view(r@).no_duplicates(),
            forall|x: (Seq<char>, Seq<char>)|
                pairs_view(r@).contains(x) <==> (preorder_srcs(*self).contains(x) && x.0.len() > 0),
    {
        let mut out: Vec<(String, String)> = Vec::new();
        assert(pairs_view(out@) =~= Seq::<(Seq<char>, Seq<char>)>::empty());
        flatten_node(self, &mut out);
        proof {
            lemma_add_unique_props(Seq::empty(), preorder_srcs(*self));
        }
        out
    }
}

// ---------------------------------------------------------------------------
// Paths to a target
// ---------------------------------------------------------------------------

/// Index of the first child in `cs[i..]` whose subtree reaches `t` (or -1).
pub open spec fn first_reaching(cs: Seq<CallGraphNode>, t: Seq<char>, i: int) -> int
    decreases cs.len() - i,
{
    if i < 0 || i >= cs.len() {
        -1
    } else if cs[i].reaches(t) {
        i
    } else {
        first_reaching(cs, t, i + 1)
    }
}

/// The nodes on the linear path from `n` towards `t`: `n`, then (unless `n`
/// itself matches) the path of the first child whose subtree reaches `t`.
pub open spec fn path_nodes(n: CallGraphNode, t: Seq<char>) -> Seq<CallGraphNode>
    decreases n,
{
    if n.node_matches(t) {
        seq![n]
    } else {
        let j = first_reaching(n.children@, t, 0);
        if 0 <= j < n.children@.len() {
            seq![n] + path_nodes(n.children@[j], t)
        } else {
            seq![n]
        }
    }
}

/// `(contract, signature, src)` of each node on the path to `t`.
pub open spec fn path_key_spec(n: CallGraphNode, t: Seq<char>) -> Seq<(Seq<char>, Seq<char>, Seq<char>)> {
    path_nodes(n, t).map_values(
        |m: CallGraphNode| (m.contract_name@, m.signature@, m.src@),
    )
}

/// View of a list of string triples.
pub open spec fn triples_view(v: Seq<(String, String, String)>) -> Seq<(Seq<char>, Seq<char>, Seq<char>)> {
    v.map_values(|p: (String, String, String)| (p.0@, p.1@, p.2@))
}

/// View of a list of node references.
pub open spec fn refs_view(v: Seq<&CallGraphNode>) -> Seq<CallGraphNode> {
    v.map_values(|r: &CallGraphNode| *r)
}

impl CallGraphNode {
    /// The first child (from index `i`) whose subtree reaches `target`.
    fn first_reaching_child(&self, target: &str, i0: usize) -> (r: Option<usize>)
        requires
            i0 <= self.children@.len(),
        ensures
            match r {
                Some(j) => j == first_reaching(self.children@, target@, i0 as int) && j
                    < self.children@.len(),
                None => first_reaching(self.children@, target@, i0 as int) == -1,
            },
    {
        let mut i = i0;
        while i < self.children.len()
            invariant
                i0 <= i <= self.children@.len(),
                first_reaching(self.children@, target@, i0 as int) == first_reaching(
                    self.children@,
                    target@,
                    i as int,
                ),
            decreases self.children@.len() - i,
        {
            if self.children[i].reaches_target(target) {
                return Some(i);
            }
            i = i + 1;
        }
        None
    }

    /// The nodes on the linear path from this node to `target` (just this
    /// node when nothing below reaches it).
    pub fn extract_path_to_target(&self, target: &str) -> (r: Vec<&CallGraphNode>)
        ensures
            refs_view(r@) == path_nodes(*self, target@),
        decreases self,
    {
        let mut path: Vec<&CallGraphNode> = Vec::new();
        path.push(self);
        if self.matches_target(target) {
            assert(refs_view(path@) =~= seq![*self]);
            return path;
        }
        match self.first_reaching_child(target, 0) {
            Some(j) => {
                let rest = self.children[j].extract_path_to_target(target);
                let mut k: usize = 0;
                while k < rest.len()
                    invariant
                        k <= rest.len(),
                        refs_view(path@) == seq![*self] + refs_view(rest@).take(k as int),
                    decreases rest.len() - k,
                {
                    let ghost p0 = path@;
                    path.push(rest[k]);
                    assert(path@ == p0.push(rest@[k as int]));
                    assert(refs_view(path@) =~= refs_view(p0).push(*rest@[k as int]));
                    assert(refs_view(rest@).take(k + 1) =~= refs_view(rest@).take(k as int).push(*rest@[k as int]));
                    assert(refs_view(path@) =~= seq![*self] + refs_view(rest@).take(k + 1));
                    k = k + 1;
                }
                assert(refs_view(rest@).take(rest.len() as int) =~= refs_view(rest@));
                path
            },
            None => {
                assert(refs_view(path@) =~= seq![*self]);
                path
            },
        }
    }

    /// Identity of the linear path from this node to `target`: the
    /// `(contract, signature, src)` of each node on it.
    pub fn path_key_to_target(&self, target: &str) -> (r: Vec<(String, String, String)>)
        ensures
            triples_view(r@) == path_key_spec(*self, target@),
    {
        let nodes = self.extract_path_to_target(target);
        let mut key: Vec<(String, String, String)> = Vec::new();
        let mut k: usize = 0;
        while k < nodes.len()
            invariant
                k <= nodes.len(),
                refs_view(nodes@) == path_nodes(*self, target@),
                triples_view(key@) == path_key_spec(*self, target@).take(k as int),
            decreases nodes.len() - k,
        {
            let n = nodes[k];
            let ghost k0 = key@;
            let t = (n.contract_name.clone(), n.signature.clone(), n.src.clone());
            key.push(t);
            assert(key@ == k0.push(t));
            assert(triples_view(key@) =~= triples_view(k0).push((t.0@, t.1@, t.2@)));
            assert(*n == path_nodes(*self, target@)[k as int]);
            assert(triples_view(key@) =~= path_key_spec(*self, target@).take(k + 1));
            k = k + 1;
        }
        assert(path_key_spec(*self, target@).take(k as int) =~= path_key_spec(*self, target@));
        key
    }
}

/// Where a target is defined, searched across roots: the `(file, src)` of
/// the first matching node (depth-first) of the first root that has one with
/// a non-empty file.
pub open spec fn target_source_spec(roots: Seq<CallGraphNode>, t: Seq<char>, i: int) -> Option<(Seq<char>, Seq<char>)>
    decreases roots.len() - i,
{
    if i < 0 || i >= roots.len() {
        None
    } else {
        match first_match(roots[i], t) {
            Some(n) if n.file@.len() > 0 => Some((n.file@, n.src@)),
            _ => target_source_spec(roots, t, i + 1),
        }
    }
}

/// The first node of `n`'s tree, depth-first, that matches `t`.
pub open spec fn first_match(n: CallGraphNode, t: Seq<char>) -> Option<CallGraphNode>
    decreases n,
{
    if n.node_matches(t) {
        Some(n)
    } else {
        let j = first_reaching(n.children@, t, 0);
        if 0 <= j < n.children@.len() {
            first_match(n.children@[j], t)
        } else {
            None
        }
    }
}

/// Get the file and src for a target function by searching the roots.
pub fn find_target_source_in_roots(roots: &Vec<CallGraphNode>, target: &str) -> (r: Option<(String, String)>)
    ensures
        match target_source_spec(roots@, target@, 0) {
            Some((f, s)) => r matches Some(p) && p.0@ == f && p.1@ == s,
            None => r is None,
        },
{
    let mut i: usize = 0;
    while i < roots.len()
        invariant
            i <= roots.len(),
            target_source_spec(roots@, target@, 0) == target_source_spec(roots@, target@, i as int),
        decreases roots.len() - i,
    {
        match roots[i].find_matching(target) {
            Some(node) => {
                if node.file.as_str().unicode_len() > 0 {
                    return Some((node.file.clone(), node.src.clone()));
                }
            },
            None => {},
        }
        i = i + 1;
    }
    None
}

/// Result of finding external entry points that can reach a target function.
pub struct CallPaths {
    /// Root nodes (external/public functions) that reach the target.
    pub roots: Vec<CallGraphNode>,
    /// Source file of the target function.
    pub target_file: String,
    /// Source location (offset:length) of the target function.
    pub target_src: String,
    /// Scoped target string ("Contract::function") used for matching.
    pub scoped_target: String,
}

/// `b` is one of the children of `a`.
pub open spec fn is_child(a: CallGraphNode, b: CallGraphNode) -> bool {
    exists|j: int| 0 <= j < a.children@.len() && #[trigger] a.children@[j] == b
}

proof fn lemma_first_reaching(cs: Seq<CallGraphNode>, t: Seq<char>, i: int, k: int)
    requires
        0 <= i <= k < cs.len(),
        cs[k].reaches(t),
    ensures
        i <= first_reaching(cs, t, i) <= k,
        cs[first_reaching(cs, t, i)].reaches(t),
    decreases k - i,
{
    if !cs[i].reaches(t) {
        lemma_first_reaching(cs, t, i + 1, k);
    }
}

/// The path `extract_path_to_target` gives for a tree that reaches the
/// target starts at the root, follows the call tree (each node a child of
/// the one before it) and ends at the node `find_matching` finds, which
/// matches the target.
pub proof fn lemma_path_to_target(n: CallGraphNode, t: Seq<char>)
    requires
        n.reaches(t),
    ensures
        path_nodes(n, t).len() > 0,
        path_nodes(n, t)[0] == n,
        first_match(n, t) == Some(path_nodes(n, t).last()),
        path_nodes(n, t).last().node_matches(t),
        forall|i: int| 0 <= i < path_nodes(n, t).len() - 1 ==> is_child(#[trigger] path_nodes(n, t)[i], path_nodes(n, t)[i + 1]),
    decreases n,
{
    if !n.node_matches(t) {
        let k = choose|k: int| 0 <= k < n.children@.len() && (#[trigger] n.children@[k]).reaches(t);
        lemma_first_reaching(n.children@, t, 0, k);
        let j = first_reaching(n.children@, t, 0);
        let c = n.children@[j];
        lemma_path_to_target(c, t);
        let rest = path_nodes(c, t);
        let p = seq![n] + rest;
        assert(path_nodes(n, t) == p);
        assert(p.last() == rest.last());
        assert forall|i: int| 0 <= i < p.len() - 1 implies is_child(#[trigger] p[i], p[i + 1]) by {
            if i == 0 {
                assert(p[1] == rest[0]);
                assert(n.children@[j] == p[1]);
            } else {
                assert(p[i] == rest[i - 1]);
                assert(p[i + 1] == rest[i]);
            }
        }
    }
}

} // verus!
