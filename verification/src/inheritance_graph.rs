//! Resolution of a contract's inheritance tree from the contracts an artifact
//! and its parents declare, with detection of circular inheritance and of
//! missing bases.
use vstd::prelude::*;
use crate::inheritance::InheritanceNode;
use crate::strings::{chars_eq, chars_of, push_str};

verus! {

/// A contract extracted from an artifact AST: its name, source file, and
/// base contract names.
#[derive(Debug, Clone)]
pub struct ContractSource {
    /// Contract name.
    pub name: String,
    /// Source file (relative to the project root).
    pub file: String,
    /// Names of the base contracts, in declaration order.
    pub bases: Vec<String>,
}

/// Why an inheritance tree cannot be built.
#[derive(Debug, Clone)]
pub enum InheritanceError {
    /// A contract inherits from itself, directly or through its bases.
    Circular(String),
    /// A contract named as a base is not among the known contracts.
    NotFound(String),
}

/// Spec form of an inheritance error.
pub enum InheritanceErrorSpec {
    Circular(Seq<char>),
    NotFound(Seq<char>),
}

impl InheritanceError {
    /// The error as a specification value.
    pub open spec fn spec(&self) -> InheritanceErrorSpec {
        match self {
            InheritanceError::Circular(n) => InheritanceErrorSpec::Circular(n@),
            InheritanceError::NotFound(n) => InheritanceErrorSpec::NotFound(n@),
        }
    }

    /// The error message.
    pub fn to_string(&self) -> (s: String)
        ensures
            s@ == match self.spec() {
                InheritanceErrorSpec::Circular(n) => "circular inheritance detected for `"@ + n + "`"@,
                InheritanceErrorSpec::NotFound(n) => "contract `"@ + n + "` not found in artifacts"@,
            },
    {
        match self {
            InheritanceError::Circular(n) => {
                let mut s = String::from_str("circular inheritance detected for `");
                push_str(&mut s, n.as_str());
                push_str(&mut s, "`");
                s
            },
            InheritanceError::NotFound(n) => {
                let mut s = String::from_str("contract `");
                push_str(&mut s, n.as_str());
                push_str(&mut s, "` not found in artifacts");
                s
            },
        }
    }
}

/// Index of the first source named `name`.
pub open spec fn find_src(srcs: Seq<ContractSource>, name: Seq<char>) -> Option<int>
    decreases srcs.len(),
{
    if srcs.len() == 0 {
        None
    } else {
        match find_src(srcs.drop_last(), name) {
            Some(i) => Some(i),
            None => if srcs.last().name@ == name {
                Some(srcs.len() - 1)
            } else {
                None
            },
        }
    }
}

/// Names of the bases of a source, as text.
pub open spec fn bases_of(s: ContractSource) -> Seq<Seq<char>> {
    s.bases@.map_values(|b: String| b@)
}

/// Number of sources whose name is not on the stack.
pub open spec fn free_count(srcs: Seq<ContractSource>, stack: Set<Seq<char>>) -> nat
    decreases srcs.len(),
{
    if srcs.len() == 0 {
        0
    } else {
        free_count(srcs.drop_last(), stack) + if stack.contains(srcs.last().name@) {
            0nat
        } else {
            1nat
        }
    }
}

pub proof fn lemma_find_src(srcs: Seq<ContractSource>, name: Seq<char>)
    ensures
        find_src(srcs, name) matches Some(i) ==> 0 <= i < srcs.len() && srcs[i].name@ == name,
    decreases srcs.len(),
{
    if srcs.len() > 0 {
        lemma_find_src(srcs.drop_last(), name);
    }
}

pub proof fn lemma_free_count_insert(srcs: Seq<ContractSource>, stack: Set<Seq<char>>, n: Seq<char>)
    ensures
        free_count(srcs, stack.insert(n)) <= free_count(srcs, stack),
        !stack.contains(n) && find_src(srcs, n) is Some ==> free_count(srcs, stack.insert(n)) < free_count(srcs, stack),
    decreases srcs.len(),
{
    if srcs.len() > 0 {
        lemma_free_count_insert(srcs.drop_last(), stack, n);
    }
}

/// The first problem met while resolving `name` with the contracts in
/// `stack` being resolved: a contract already on the stack, a missing
/// contract, or the first problem among its bases in order.
pub open spec fn first_error(srcs: Seq<ContractSource>, name: Seq<char>, stack: Set<Seq<char>>) -> Option<InheritanceErrorSpec>
    decreases free_count(srcs, stack), 0nat, 0nat,
{
    if stack.contains(name) {
        Some(InheritanceErrorSpec::Circular(name))
    } else {
        match find_src(srcs, name) {
            None => Some(InheritanceErrorSpec::NotFound(name)),
            Some(i) => {
                proof {
                    lemma_free_count_insert(srcs, stack, name);
                }
                bases_error(srcs, bases_of(srcs[i]), stack.insert(name), 0)
            },
        }
    }
}

/// The first problem among `bases[k..]`.
pub open spec fn bases_error(srcs: Seq<ContractSource>, bases: Seq<Seq<char>>, stack: Set<Seq<char>>, k: int) -> Option<InheritanceErrorSpec>
    decreases free_count(srcs, stack), 1nat, bases.len() - k,
{
    if k < 0 || k >= bases.len() {
        None
    } else {
        match first_error(srcs, bases[k], stack) {
            Some(e) => Some(e),
            None => bases_error(srcs, bases, stack, k + 1),
        }
    }
}

/// `node` is the inheritance tree of `name`: it carries the contract's name
/// and file, and one subtree per base, in order.
pub open spec fn tree_of(srcs: Seq<ContractSource>, name: Seq<char>, node: InheritanceNode) -> bool
    decreases node,
{
    match find_src(srcs, name) {
        None => false,
        Some(i) => {
            let bases = bases_of(srcs[i]);
            &&& node.name@ == name
            &&& node.file@ == srcs[i].file@
            &&& node.parents@.len() == bases.len()
            &&& forall|k: int| 0 <= k < bases.len() ==> tree_of(srcs, bases[k], #[trigger] node.parents@[k])
        }
    }
}

/// View of a stack of names as a set.
pub open spec fn stack_set(v: Seq<String>) -> Set<Seq<char>> {
    Set::new(|n: Seq<char>| exists|i: int| 0 <= i < v.len() && (#[trigger] v[i])@ == n)
}

fn find_source<'a>(srcs: &'a Vec<ContractSource>, name: &str) -> (r: Option<&'a ContractSource>)
    ensures
        match find_src(srcs@, name@) {
            Some(i) => r matches Some(s) && *s == srcs@[i],
            None => r is None,
        },
{
    let nv = chars_of(name);
    let mut i: usize = 0;
    while i < srcs.len()
        invariant
            i <= srcs@.len(),
            nv@ == name@,
            find_src(srcs@.take(i as int), name@) is None,
        decreases srcs@.len() - i,
    {
        let x = chars_of(srcs[i].name.as_str());
        assert(srcs@.take(i + 1).drop_last() == srcs@.take(i as int));
        if chars_eq(&x, &nv) {
            proof {
                lemma_find_src_prefix(srcs@, name@, i + 1);
            }
            return Some(&srcs[i]);
        }
        i = i + 1;
    }
    assert(srcs@.take(srcs@.len() as int) == srcs@);
    None
}

/// A match found in a prefix is the first match of the whole list.
proof fn lemma_find_src_prefix(srcs: Seq<ContractSource>, name: Seq<char>, k: int)
    requires
        0 <= k <= srcs.len(),
        find_src(srcs.take(k), name) is Some,
    ensures
        find_src(srcs, name) == find_src(srcs.take(k), name),
    decreases srcs.len() - k,
{
    if k < srcs.len() {
        assert(srcs.take(k + 1).drop_last() == srcs.take(k));
        lemma_find_src_prefix(srcs, name, k + 1);
    } else {
        assert(srcs.take(k) == srcs);
    }
}

fn stack_contains(stack: &Vec<String>, name: &str) -> (b: bool)
    ensures
        b == stack_set(stack@).contains(name@),
{
    let nv = chars_of(name);
    let mut i: usize = 0;
    while i < stack.len()
        invariant
            i <= stack@.len(),
            nv@ == name@,
            forall|j: int| 0 <= j < i ==> (#[trigger] stack@[j])@ != name@,
        decreases stack@.len() - i,
    {
        let x = chars_of(stack[i].as_str());
        if chars_eq(&x, &nv) {
            assert(stack_set(stack@).contains(name@));
            return true;
        }
        i = i + 1;
    }
    false
}

/// Resolve the inheritance tree of `name` while the contracts in `stack`
/// are being resolved.
pub fn resolve_tree(name: &str, srcs: &Vec<ContractSource>, stack: &mut Vec<String>) -> (r: Result<InheritanceNode, InheritanceError>)
    ensures
        match first_error(srcs@, name@, stack_set(old(stack)@)) {
            None => r matches Ok(node) && tree_of(srcs@, name@, node),
            Some(e) => r matches Err(err) && err.spec() == e,
        },
        r is Ok ==> final(stack)@ == old(stack)@,
    decreases free_count(srcs@, stack_set(old(stack)@)), 0nat, 0nat,
{
    if stack_contains(stack, name) {
        return Err(InheritanceError::Circular(String::from_str(name)));
    }
    let source = match find_source(srcs, name) {
        Some(s) => s,
        None => {
            return Err(InheritanceError::NotFound(String::from_str(name)));
        },
    };
    let ghost idx = find_src(srcs@, name@).unwrap();
    let ghost st0 = stack_set(stack@);
    proof {
        lemma_find_src(srcs@, name@);
        lemma_free_count_insert(srcs@, st0, name@);
    }
    let ghost stack0 = stack@;
    stack.push(String::from_str(name));
    proof {
        assert(stack_set(stack@) =~= st0.insert(name@)) by {
            assert forall|n: Seq<char>| stack_set(stack@).contains(n) <==> st0.insert(name@).contains(n) by {
                if stack_set(stack@).contains(n) {
                    let j = choose|j: int| 0 <= j < stack@.len() && (#[trigger] stack@[j])@ == n;
                    if j < stack0.len() {
                        assert(stack0[j] == stack@[j]);
                    }
                }
                if st0.contains(n) {
                    let j = choose|j: int| 0 <= j < stack0.len() && (#[trigger] stack0[j])@ == n;
                    assert(stack@[j] == stack0[j]);
                }
                if n == name@ {
                    assert(stack@[stack0.len() as int]@ == name@);
                }
            }
        }
    }
    let ghost bases = bases_of(srcs@[idx]);
    let mut parents: Vec<InheritanceNode> = Vec::new();
    let mut k: usize = 0;
    while k < source.bases.len()
        invariant
            0 <= idx < srcs@.len(),
            st0 == stack_set(old(stack)@),
            !st0.contains(name@),
            find_src(srcs@, name@) == Some(idx),
            *source == srcs@[idx],
            bases == bases_of(srcs@[idx]),
            k <= bases.len(),
            stack@ == stack0.push(stack@[stack0.len() as int]),
            stack@.len() == stack0.len() + 1,
            stack_set(stack@) == st0.insert(name@),
            free_count(srcs@, st0.insert(name@)) < free_count(srcs@, st0),
            bases_error(srcs@, bases, st0.insert(name@), 0) == bases_error(srcs@, bases, st0.insert(name@), k as int),
            parents@.len() == k,
            forall|j: int| 0 <= j < k ==> tree_of(srcs@, bases[j], #[trigger] parents@[j]),
        decreases bases.len() - k,
    {
        assert(source.bases@[k as int]@ == bases[k as int]);
        let sub = resolve_tree(source.bases[k].as_str(), srcs, stack);
        match sub {
            Ok(node) => {
                parents.push(node);
            },
            Err(e) => {
                proof {
                    assert(bases_error(srcs@, bases, st0.insert(name@), k as int) == Some(e.spec()));
                    assert(first_error(srcs@, name@, st0) == bases_error(srcs@, bases, st0.insert(name@), 0));
                }
                return Err(e);
            },
        }
        k = k + 1;
    }
    stack.pop();
    proof {
        assert(stack@ =~= stack0);
        assert(source.bases@.len() == bases.len());
    }
    let node = InheritanceNode { name: source.name.clone(), file: source.file.clone(), parents };
    proof {
        assert(node.parents@ == parents@);
    }
    Ok(node)
}

} // verus!
