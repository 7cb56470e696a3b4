//! The externally callable functions of a contract: each ABI entry matched
//! to its declaration (own before inherited, overloads told apart by their
//! parameter types), sorted into mutable, view, callback and special
//! functions, and the report listing them.
use vstd::prelude::*;
use crate::ast::{visibility_spec, visibility_str, Visibility};
use crate::ids::opt_view;
use crate::order::texts_view;
use crate::strings::{
    byte_len, chars_eq, chars_of, decimal, decimal_exec, find_exec, find_spec, join_spec, occurs_at, push_str,
    rfind_exec, rfind_spec, starts_with, string_of, string_of_range,
};

verus! {

/// State mutability of a function.
#[derive(Debug, Clone, Copy, PartialEq, Eq, Structural)]
pub enum StateMutability {
    Pure,
    View,
    Nonpayable,
    Payable,
}

/// A parameter of an ABI function: its canonical type and the compiler's
/// internal type (e.g. `struct Lib.Point`).
pub struct AbiParam {
    pub kind: String,
    pub internal_type: Option<String>,
}

/// An entry of a contract's ABI.
pub enum AbiEntry {
    Function { name: String, inputs: Vec<AbiParam>, mutability: StateMutability },
    Receive,
    Fallback,
    /// Events, errors and constructors.
    Other,
}

/// What a declaration of the index is.
#[derive(Debug, Clone, Copy, PartialEq, Eq, Structural)]
pub enum DeclKind {
    Function,
    Receive,
    Fallback,
    Variable,
}

/// A function or state variable declaration, as the index records it.
pub struct IndexedDecl {
    pub contract: String,
    pub kind: DeclKind,
    pub name: String,
    /// The source file, relative to the project root.
    pub file: Option<String>,
    /// The 1-based line of the declaration.
    pub line: Option<usize>,
    pub offset: usize,
    pub length: usize,
    pub visibility: Visibility,
    pub modifiers: Vec<String>,
    /// The compiler's type description of each parameter.
    pub param_types: Vec<Option<String>>,
    pub is_interface: bool,
}

/// Every function and public variable of the indexed contracts, in the
/// order they were registered, and the names of the interfaces among them.
pub struct FunctionIndex {
    pub decls: Vec<IndexedDecl>,
    pub interfaces: Vec<String>,
}

/// Where a function is declared.
pub struct SourceInfo {
    pub file: String,
    pub offset: usize,
    pub length: usize,
    pub line: usize,
}

/// One externally callable function.
pub struct ExternalFunctionInfo {
    pub signature: String,
    pub source: Option<SourceInfo>,
    pub visibility: Visibility,
    pub mutability: StateMutability,
    pub modifiers: Vec<String>,
}

/// The category of an externally callable function.
#[derive(Debug, Clone, Copy, PartialEq, Eq, Structural)]
pub enum FunctionCategory {
    StateChanging,
    Callback,
    Special,
    ReadOnly,
}

/// The functions of a contract, by category.
pub struct ExternalFunctionInspectorOutput {
    pub contract_name: String,
    /// The source file of the queried contract.
    pub source_file: Option<String>,
    pub state_changing: Vec<ExternalFunctionInfo>,
    pub callback: Vec<ExternalFunctionInfo>,
    pub special: Vec<ExternalFunctionInfo>,
    pub read_only: Vec<ExternalFunctionInfo>,
}

// ---------------------------------------------------------------------------
// Signatures
// ---------------------------------------------------------------------------

/// `s` with every occurrence of `pat` removed, left to right.
pub open spec fn remove_all(s: Seq<char>, pat: Seq<char>) -> Seq<char>
    decreases s.len(),
{
    if pat.len() == 0 {
        s
    } else {
        match find_spec(s, pat) {
            Some(i) => if 0 <= i && i + pat.len() <= s.len() {
                s.subrange(0, i) + remove_all(s.subrange(i + pat.len(), s.len() as int), pat)
            } else {
                s
            },
            None => s,
        }
    }
}

/// A type text without data locations and `payable`.
pub open spec fn normalize_type_spec(s: Seq<char>) -> Seq<char> {
    remove_all(remove_all(remove_all(remove_all(s, " memory"@), " calldata"@), " storage"@), " payable"@)
}

/// The text after the last `.` (all of it without one).
pub open spec fn after_last_dot(s: Seq<char>) -> Seq<char> {
    match rfind_spec(s, seq!['.']) {
        Some(i) => s.subrange(i + 1, s.len() as int),
        None => s,
    }
}

/// How a parameter shows in a signature: a struct by its bare name,
/// anything else by its canonical type.
pub open spec fn shown_type(p: AbiParam) -> Seq<char> {
    match p.internal_type {
        Some(t) => if starts_with(t@, "struct "@) {
            after_last_dot(t@)
        } else {
            p.kind@
        },
        None => p.kind@,
    }
}

/// The display signature of an ABI function, `name(types)`.
pub open spec fn abi_signature_spec(name: Seq<char>, inputs: Seq<AbiParam>) -> Seq<char> {
    name + "("@ + join_spec(inputs.map_values(|p: AbiParam| shown_type(p)), ","@) + ")"@
}

/// The key that tells overloads apart: each parameter's internal type (or
/// canonical type), normalized.
pub open spec fn abi_key_spec(inputs: Seq<AbiParam>) -> Seq<char> {
    join_spec(
        inputs.map_values(|p: AbiParam| normalize_type_spec(match p.internal_type {
            Some(t) => t@,
            None => p.kind@,
        })),
        ","@,
    )
}

/// The same key for a declaration, from its parameters' type descriptions.
pub open spec fn decl_key_spec(ts: Seq<Option<String>>) -> Seq<char> {
    join_spec(
        ts.map_values(|t: Option<String>| normalize_type_spec(match t {
            Some(x) => x@,
            None => Seq::empty(),
        })),
        ","@,
    )
}

/// Whether a function name is one of the well-known ERC callbacks.
pub open spec fn is_callback_spec(name: Seq<char>) -> bool {
    name == "onERC721Received"@ || name == "onERC1155Received"@ || name == "onERC1155BatchReceived"@
}

// ---------------------------------------------------------------------------
// Resolving a function to its declaration
// ---------------------------------------------------------------------------

/// Declarations looked up by name: functions and variables.
pub open spec fn is_named(d: IndexedDecl) -> bool {
    d.kind == DeclKind::Function || d.kind == DeclKind::Variable
}

/// `d` is declared by contract `c` under name `n`, with key `s` if given.
pub open spec fn own_pred(d: IndexedDecl, c: Seq<char>, n: Seq<char>, s: Option<Seq<char>>) -> bool {
    is_named(d) && d.contract@ == c && d.name@ == n && match s {
        Some(k) => decl_key_spec(d.param_types@) == k,
        None => true,
    }
}

/// `d` is named `n`, on the interface side `iface`, with key `s` if given.
pub open spec fn named_pred(d: IndexedDecl, n: Seq<char>, iface: bool, s: Option<Seq<char>>) -> bool {
    is_named(d) && d.name@ == n && d.is_interface == iface && match s {
        Some(k) => decl_key_spec(d.param_types@) == k,
        None => true,
    }
}

/// The first of `ds[0..k]` that `own_pred` holds of.
pub open spec fn first_own(ds: Seq<IndexedDecl>, c: Seq<char>, n: Seq<char>, s: Option<Seq<char>>, k: int) -> Option<int>
    decreases k,
{
    if k <= 0 || k > ds.len() {
        None
    } else {
        match first_own(ds, c, n, s, k - 1) {
            Some(i) => Some(i),
            None => if own_pred(ds[k - 1], c, n, s) {
                Some(k - 1)
            } else {
                None
            },
        }
    }
}

/// `a` comes before `b` by line (0 when unknown), then offset.
pub open spec fn decl_before(a: IndexedDecl, b: IndexedDecl) -> bool {
    let la = match a.line { Some(l) => l as int, None => 0 };
    let lb = match b.line { Some(l) => l as int, None => 0 };
    la < lb || (la == lb && a.offset < b.offset)
}

/// The earliest (by line, then offset, then position) of `ds[0..k]` that
/// `named_pred` holds of.
pub open spec fn min_named(ds: Seq<IndexedDecl>, n: Seq<char>, iface: bool, s: Option<Seq<char>>, k: int) -> Option<int>
    decreases k,
{
    if k <= 0 || k > ds.len() {
        None
    } else {
        let prev = min_named(ds, n, iface, s, k - 1);
        if named_pred(ds[k - 1], n, iface, s) {
            match prev {
                None => Some(k - 1),
                Some(b) => if decl_before(ds[k - 1], ds[b]) { Some(k - 1) } else { Some(b) },
            }
        } else {
            prev
        }
    }
}

/// The declaration an ABI function of contract `c` resolves to: one of the
/// contract's own (the one whose key matches, else the first); else, among
/// the declarations of that name elsewhere, those of the contract's kind
/// (interface or not) before the others, the earliest whose key matches,
/// else the earliest.
pub open spec fn resolve_spec(ix: FunctionIndex, c: Seq<char>, n: Seq<char>, s: Seq<char>) -> Option<int> {
    let ds = ix.decls@;
    let len = ds.len() as int;
    match first_own(ds, c, n, Some(s), len) {
        Some(i) => Some(i),
        None => match first_own(ds, c, n, None, len) {
            Some(i) => Some(i),
            None => {
                let pi = texts_view(ix.interfaces@).contains(c);
                match min_named(ds, n, pi, Some(s), len) {
                    Some(i) => Some(i),
                    None => match min_named(ds, n, pi, None, len) {
                        Some(i) => Some(i),
                        None => match min_named(ds, n, !pi, Some(s), len) {
                            Some(i) => Some(i),
                            None => min_named(ds, n, !pi, None, len),
                        },
                    },
                }
            },
        },
    }
}

/// The last of `ds[0..k]` that is contract `c`'s `receive` or `fallback`
/// (`kind`).
pub open spec fn last_special(ds: Seq<IndexedDecl>, c: Seq<char>, kind: DeclKind, k: int) -> Option<int>
    decreases k,
{
    if k <= 0 || k > ds.len() {
        None
    } else if ds[k - 1].kind == kind && ds[k - 1].contract@ == c {
        Some(k - 1)
    } else {
        last_special(ds, c, kind, k - 1)
    }
}


/// Remove every occurrence of `pat` from `v`, left to right.
fn remove_all_exec(v: &Vec<char>, pat: &Vec<char>) -> (r: Vec<char>)
    ensures
        r@ == remove_all(v@, pat@),
    decreases v@.len(),
{
    if pat.len() == 0 {
        return v.clone();
    }
    match find_exec(v, pat) {
        Some(i) => {
            assert(occurs_at(v@, i as int, pat@));
            let n = v.len();
            let j: usize = i + pat.len();
            let mut rest: Vec<char> = Vec::new();
            let mut k = j;
            while k < n
                invariant
                    j <= k <= n,
                    n == v@.len(),
                    rest@ == v@.subrange(j as int, k as int),
                decreases n - k,
            {
                rest.push(v[k]);
                assert(rest@ =~= v@.subrange(j as int, k + 1));
                k = k + 1;
            }
            let tail = remove_all_exec(&rest, pat);
            let mut out: Vec<char> = Vec::new();
            let mut q: usize = 0;
            while q < i
                invariant
                    q <= i,
                    i <= v@.len(),
                    out@ == v@.subrange(0, q as int),
                decreases i - q,
            {
                out.push(v[q]);
                assert(out@ =~= v@.subrange(0, q + 1));
                q = q + 1;
            }
            let mut t: usize = 0;
            while t < tail.len()
                invariant
                    t <= tail@.len(),
                    out@ == v@.subrange(0, i as int) + tail@.subrange(0, t as int),
                decreases tail@.len() - t,
            {
                out.push(tail[t]);
                assert(out@ =~= v@.subrange(0, i as int) + tail@.subrange(0, t + 1));
                t = t + 1;
            }
            assert(tail@.subrange(0, tail@.len() as int) =~= tail@);
            out
        },
        None => v.clone(),
    }
}

/// A type text without data locations and `payable`.
pub fn normalize_type_key(s: &str) -> (r: String)
    ensures
        r@ == normalize_type_spec(s@),
{
    let v = chars_of(s);
    let a = remove_all_exec(&v, &chars_of(" memory"));
    let b = remove_all_exec(&a, &chars_of(" calldata"));
    let c = remove_all_exec(&b, &chars_of(" storage"));
    let d = remove_all_exec(&c, &chars_of(" payable"));
    string_of(&d)
}

/// How a parameter shows in a signature.
fn shown_type_exec(p: &AbiParam) -> (r: String)
    ensures
        r@ == shown_type(*p),
{
    match &p.internal_type {
        Some(t) => {
            let tv = chars_of(t.as_str());
            let pre = chars_of("struct ");
            if tv.len() >= pre.len() && crate::strings::range_eq(&tv, 0, pre.len(), &pre) {
                let mut dot: Vec<char> = Vec::new();
                dot.push('.');
                assert(dot@ =~= seq!['.']);
                match rfind_exec(&tv, &dot) {
                    Some(i) => {
                        assert(occurs_at(tv@, i as int, dot@));
                        let n = tv.len();
                        let j: usize = i + 1;
                        string_of_range(&tv, j, n)
                    },
                    None => t.clone(),
                }
            } else {
                p.kind.clone()
            }
        },
        None => p.kind.clone(),
    }
}

/// The display signature of an ABI function, `name(types)`.
pub fn external_function_signature(name: &str, inputs: &Vec<AbiParam>) -> (r: String)
    ensures
        r@ == abi_signature_spec(name@, inputs@),
{
    let ghost parts = inputs@.map_values(|p: AbiParam| shown_type(p));
    let mut r = String::from_str(name);
    push_str(&mut r, "(");
    let ghost head = r@;
    let mut i: usize = 0;
    while i < inputs.len()
        invariant
            parts == inputs@.map_values(|p: AbiParam| shown_type(p)),
            i <= inputs@.len(),
            r@ == head + join_spec(parts.take(i as int), ","@),
        decreases inputs@.len() - i,
    {
        assert(parts.take(i + 1).drop_last() =~= parts.take(i as int));
        if i > 0 {
            push_str(&mut r, ",");
        }
        let t = shown_type_exec(&inputs[i]);
        push_str(&mut r, t.as_str());
        assert(r@ =~= head + join_spec(parts.take(i + 1), ","@));
        i = i + 1;
    }
    assert(parts.take(inputs@.len() as int) =~= parts);
    push_str(&mut r, ")");
    r
}

/// The key that tells overloads apart, from the ABI.
pub fn abi_param_signature(inputs: &Vec<AbiParam>) -> (r: String)
    ensures
        r@ == abi_key_spec(inputs@),
{
    let ghost parts = inputs@.map_values(|p: AbiParam| normalize_type_spec(match p.internal_type {
        Some(t) => t@,
        None => p.kind@,
    }));
    let mut r = String::new();
    let mut i: usize = 0;
    while i < inputs.len()
        invariant
            parts == inputs@.map_values(|p: AbiParam| normalize_type_spec(match p.internal_type {
                Some(t) => t@,
                None => p.kind@,
            })),
            i <= inputs@.len(),
            r@ == join_spec(parts.take(i as int), ","@),
        decreases inputs@.len() - i,
    {
        assert(parts.take(i + 1).drop_last() =~= parts.take(i as int));
        if i > 0 {
            push_str(&mut r, ",");
        }
        let t = match &inputs[i].internal_type {
            Some(t) => normalize_type_key(t.as_str()),
            None => normalize_type_key(inputs[i].kind.as_str()),
        };
        push_str(&mut r, t.as_str());
        assert(r@ =~= join_spec(parts.take(i + 1), ","@));
        i = i + 1;
    }
    assert(parts.take(inputs@.len() as int) =~= parts);
    r
}

/// The same key for a declaration.
pub fn ast_param_signature(ts: &Vec<Option<String>>) -> (r: String)
    ensures
        r@ == decl_key_spec(ts@),
{
    let ghost parts = ts@.map_values(|t: Option<String>| normalize_type_spec(match t {
        Some(x) => x@,
        None => Seq::empty(),
    }));
    let mut r = String::new();
    let mut i: usize = 0;
    while i < ts.len()
        invariant
            parts == ts@.map_values(|t: Option<String>| normalize_type_spec(match t {
                Some(x) => x@,
                None => Seq::empty(),
            })),
            i <= ts@.len(),
            r@ == join_spec(parts.take(i as int), ","@),
        decreases ts@.len() - i,
    {
        assert(parts.take(i + 1).drop_last() =~= parts.take(i as int));
        if i > 0 {
            push_str(&mut r, ",");
        }
        let t = match &ts[i] {
            Some(x) => normalize_type_key(x.as_str()),
            None => normalize_type_key(""),
        };
        proof {
            reveal_strlit("");
        }
        push_str(&mut r, t.as_str());
        assert(r@ =~= join_spec(parts.take(i + 1), ","@));
        i = i + 1;
    }
    assert(parts.take(ts@.len() as int) =~= parts);
    r
}

/// Whether a function name is one of the well-known ERC callbacks.
pub fn is_callback_function(name: &str) -> (b: bool)
    ensures
        b == is_callback_spec(name@),
{
    let v = chars_of(name);
    chars_eq(&v, &chars_of("onERC721Received")) || chars_eq(&v, &chars_of("onERC1155Received"))
        || chars_eq(&v, &chars_of("onERC1155BatchReceived"))
}


/// Whether `own_pred` holds, given the declaration's key.
fn own_pred_exec(d: &IndexedDecl, c: &Vec<char>, n: &Vec<char>, s: &Option<Vec<char>>) -> (b: bool)
    ensures
        b == own_pred(*d, c@, n@, match s { Some(k) => Some(k@), None => None }),
{
    if !(d.kind == DeclKind::Function || d.kind == DeclKind::Variable) {
        return false;
    }
    let dc = chars_of(d.contract.as_str());
    let dn = chars_of(d.name.as_str());
    if !(chars_eq(&dc, c) && chars_eq(&dn, n)) {
        return false;
    }
    match s {
        Some(k) => {
            let key = ast_param_signature(&d.param_types);
            let kv = chars_of(key.as_str());
            chars_eq(&kv, k)
        },
        None => true,
    }
}

/// Whether `named_pred` holds.
fn named_pred_exec(d: &IndexedDecl, n: &Vec<char>, iface: bool, s: &Option<Vec<char>>) -> (b: bool)
    ensures
        b == named_pred(*d, n@, iface, match s { Some(k) => Some(k@), None => None }),
{
    if !(d.kind == DeclKind::Function || d.kind == DeclKind::Variable) || d.is_interface != iface {
        return false;
    }
    let dn = chars_of(d.name.as_str());
    if !chars_eq(&dn, n) {
        return false;
    }
    match s {
        Some(k) => {
            let key = ast_param_signature(&d.param_types);
            let kv = chars_of(key.as_str());
            chars_eq(&kv, k)
        },
        None => true,
    }
}

/// The first declaration `own_pred` holds of.
fn first_own_exec(ds: &Vec<IndexedDecl>, c: &Vec<char>, n: &Vec<char>, s: &Option<Vec<char>>) -> (r: Option<usize>)
    ensures
        match r {
            Some(i) => first_own(ds@, c@, n@, match s { Some(k) => Some(k@), None => None }, ds@.len() as int) == Some(i as int),
            None => first_own(ds@, c@, n@, match s { Some(k) => Some(k@), None => None }, ds@.len() as int) is None,
        },
{
    let ghost sv = match s { Some(k) => Some(k@), None => None };
    let mut i: usize = 0;
    while i < ds.len()
        invariant
            sv == match s { Some(k) => Some(k@), None => None::<Seq<char>> },
            i <= ds@.len(),
            first_own(ds@, c@, n@, sv, i as int) is None,
        decreases ds@.len() - i,
    {
        if own_pred_exec(&ds[i], c, n, s) {
            proof {
                lemma_first_own_stays(ds@, c@, n@, sv, i + 1, ds@.len() as int);
            }
            return Some(i);
        }
        i = i + 1;
    }
    None
}

/// Once found, the first match stays the first.
proof fn lemma_first_own_stays(ds: Seq<IndexedDecl>, c: Seq<char>, n: Seq<char>, s: Option<Seq<char>>, k: int, m: int)
    requires
        0 < k <= m <= ds.len(),
        first_own(ds, c, n, s, k) is Some,
    ensures
        first_own(ds, c, n, s, m) == first_own(ds, c, n, s, k),
    decreases m - k,
{
    if k < m {
        lemma_first_own_stays(ds, c, n, s, k, m - 1);
    }
}

/// The earliest declaration `named_pred` holds of.
fn min_named_exec(ds: &Vec<IndexedDecl>, n: &Vec<char>, iface: bool, s: &Option<Vec<char>>) -> (r: Option<usize>)
    ensures
        match r {
            Some(i) => min_named(ds@, n@, iface, match s { Some(k) => Some(k@), None => None }, ds@.len() as int) == Some(i as int),
            None => min_named(ds@, n@, iface, match s { Some(k) => Some(k@), None => None }, ds@.len() as int) is None,
        },
{
    let ghost sv = match s { Some(k) => Some(k@), None => None };
    let mut best: Option<usize> = None;
    let mut i: usize = 0;
    while i < ds.len()
        invariant
            sv == match s { Some(k) => Some(k@), None => None::<Seq<char>> },
            i <= ds@.len(),
            match best {
                Some(b) => min_named(ds@, n@, iface, sv, i as int) == Some(b as int) && b < i,
                None => min_named(ds@, n@, iface, sv, i as int) is None,
            },
        decreases ds@.len() - i,
    {
        if named_pred_exec(&ds[i], n, iface, s) {
            match best {
                None => {
                    best = Some(i);
                },
                Some(b) => {
                    let a = &ds[i];
                    let o = &ds[b];
                    let la: usize = match a.line { Some(l) => l, None => 0 };
                    let lb: usize = match o.line { Some(l) => l, None => 0 };
                    if la < lb || (la == lb && a.offset < o.offset) {
                        best = Some(i);
                    }
                },
            }
        }
        i = i + 1;
    }
    best
}

/// The declaration an ABI function `n` of contract `c` with key `s`
/// resolves to, as a position in the index.
pub fn resolve_function(ix: &FunctionIndex, c: &str, n: &str, s: &str) -> (r: Option<usize>)
    ensures
        match resolve_spec(*ix, c@, n@, s@) {
            Some(i) => r == Some(i as usize) && 0 <= i < ix.decls@.len(),
            None => r is None,
        },
{
    let cv = chars_of(c);
    let nv = chars_of(n);
    let sv = chars_of(s);
    let ks: Option<Vec<char>> = Some(sv);
    let none: Option<Vec<char>> = None;
    let ds = &ix.decls;
    proof {
        lemma_first_own_range(ds@, c@, n@, Some(s@), ds@.len() as int);
        lemma_first_own_range(ds@, c@, n@, None, ds@.len() as int);
        lemma_min_named_range(ds@, n@, true, Some(s@), ds@.len() as int);
        lemma_min_named_range(ds@, n@, true, None, ds@.len() as int);
        lemma_min_named_range(ds@, n@, false, Some(s@), ds@.len() as int);
        lemma_min_named_range(ds@, n@, false, None, ds@.len() as int);
    }
    if let Some(i) = first_own_exec(ds, &cv, &nv, &ks) {
        return Some(i);
    }
    if let Some(i) = first_own_exec(ds, &cv, &nv, &none) {
        return Some(i);
    }
    let mut pi = false;
    let mut j: usize = 0;
    while j < ix.interfaces.len()
        invariant
            cv@ == c@,
            j <= ix.interfaces@.len(),
            pi == exists|q: int| 0 <= q < j && texts_view(ix.interfaces@)[q] == c@,
        decreases ix.interfaces@.len() - j,
    {
        let x = chars_of(ix.interfaces[j].as_str());
        assert(texts_view(ix.interfaces@)[j as int] == x@);
        let ghost p0 = pi;
        if chars_eq(&x, &cv) {
            pi = true;
        }
        proof {
            if !pi {
                assert forall|q: int| 0 <= q < j + 1 implies texts_view(ix.interfaces@)[q] != c@ by {
                    if q < j {
                        assert(!p0);
                    }
                }
            }
        }
        j = j + 1;
    }
    proof {
        if pi {
            let q = choose|q: int| 0 <= q < ix.interfaces@.len() && texts_view(ix.interfaces@)[q] == c@;
            assert(texts_view(ix.interfaces@).contains(c@));
        } else {
            assert(!texts_view(ix.interfaces@).contains(c@));
        }
    }
    if let Some(i) = min_named_exec(ds, &nv, pi, &ks) {
        return Some(i);
    }
    if let Some(i) = min_named_exec(ds, &nv, pi, &none) {
        return Some(i);
    }
    if let Some(i) = min_named_exec(ds, &nv, !pi, &ks) {
        return Some(i);
    }
    min_named_exec(ds, &nv, !pi, &none)
}

proof fn lemma_first_own_range(ds: Seq<IndexedDecl>, c: Seq<char>, n: Seq<char>, s: Option<Seq<char>>, k: int)
    ensures
        first_own(ds, c, n, s, k) matches Some(i) ==> 0 <= i < ds.len(),
    decreases k,
{
    if k > 0 {
        lemma_first_own_range(ds, c, n, s, k - 1);
    }
}

proof fn lemma_min_named_range(ds: Seq<IndexedDecl>, n: Seq<char>, iface: bool, s: Option<Seq<char>>, k: int)
    ensures
        min_named(ds, n, iface, s, k) matches Some(i) ==> 0 <= i < ds.len(),
    decreases k,
{
    if k > 0 {
        lemma_min_named_range(ds, n, iface, s, k - 1);
    }
}

/// The last `receive` or `fallback` (`kind`) registered for contract `c`.
fn last_special_exec(ds: &Vec<IndexedDecl>, c: &str, kind: DeclKind) -> (r: Option<usize>)
    ensures
        match r {
            Some(i) => last_special(ds@, c@, kind, ds@.len() as int) == Some(i as int) && i < ds@.len(),
            None => last_special(ds@, c@, kind, ds@.len() as int) is None,
        },
{
    let cv = chars_of(c);
    let mut i: usize = ds.len();
    while i > 0
        invariant
            cv@ == c@,
            i <= ds@.len(),
            last_special(ds@, c@, kind, ds@.len() as int) == last_special(ds@, c@, kind, i as int),
        decreases i,
    {
        let d = &ds[i - 1];
        let dc = chars_of(d.contract.as_str());
        if d.kind == kind && chars_eq(&dc, &cv) {
            return Some(i - 1);
        }
        i = i - 1;
    }
    None
}


// ---------------------------------------------------------------------------
// Sorting the ABI into categories
// ---------------------------------------------------------------------------

/// Specification value of a function's entry.
pub open spec fn info_view(f: ExternalFunctionInfo) -> (
    Seq<char>,
    Option<(Seq<char>, usize, usize, usize)>,
    Visibility,
    StateMutability,
    Seq<Seq<char>>,
) {
    (
        f.signature@,
        match f.source {
            Some(si) => Some((si.file@, si.offset, si.length, si.line)),
            None => None,
        },
        f.visibility,
        f.mutability,
        texts_view(f.modifiers@),
    )
}

/// Specification values of a list of entries.
pub open spec fn infos_view(v: Seq<ExternalFunctionInfo>) -> Seq<(
    Seq<char>,
    Option<(Seq<char>, usize, usize, usize)>,
    Visibility,
    StateMutability,
    Seq<Seq<char>>,
)> {
    v.map_values(|f: ExternalFunctionInfo| info_view(f))
}

/// The text of an optional string (empty when absent).
pub open spec fn opt_text(o: Option<String>) -> Seq<char> {
    match o {
        Some(s) => s@,
        None => Seq::empty(),
    }
}

/// Where a declaration is: file (empty when unknown), offset, length, line
/// (0 when unknown).
pub open spec fn decl_source(d: IndexedDecl) -> (Seq<char>, usize, usize, usize) {
    (opt_text(d.file), d.offset, d.length, match d.line { Some(l) => l, None => 0 })
}

/// The entry of an ABI function of contract `c`.
pub open spec fn function_info_spec(ix: FunctionIndex, c: Seq<char>, name: Seq<char>, inputs: Seq<AbiParam>, m: StateMutability) -> (
    Seq<char>,
    Option<(Seq<char>, usize, usize, usize)>,
    Visibility,
    StateMutability,
    Seq<Seq<char>>,
) {
    let sig = abi_signature_spec(name, inputs);
    match resolve_spec(ix, c, name, abi_key_spec(inputs)) {
        Some(i) => {
            let d = ix.decls@[i];
            (sig, Some(decl_source(d)), d.visibility, m, texts_view(d.modifiers@))
        },
        None => (sig, None, Visibility::External, m, Seq::empty()),
    }
}

/// The entry of contract `c`'s `receive` or `fallback`: its own declaration,
/// else the contract's file.
pub open spec fn special_info_spec(ix: FunctionIndex, c: Seq<char>, kind: DeclKind, sf: Option<Seq<char>>) -> (
    Seq<char>,
    Option<(Seq<char>, usize, usize, usize)>,
    Visibility,
    StateMutability,
    Seq<Seq<char>>,
) {
    let sig = if kind == DeclKind::Receive { "receive()"@ } else { "fallback()"@ };
    let m = if kind == DeclKind::Receive { StateMutability::Payable } else { StateMutability::Nonpayable };
    let src = match last_special(ix.decls@, c, kind, ix.decls@.len() as int) {
        Some(i) => Some(decl_source(ix.decls@[i])),
        None => match sf {
            Some(f) => Some((f, 0usize, 0usize, 0usize)),
            None => None,
        },
    };
    (sig, src, Visibility::External, m, Seq::empty())
}

/// The category of an ABI entry (none for events, errors, constructors).
pub open spec fn entry_category(e: AbiEntry) -> Option<FunctionCategory> {
    match e {
        AbiEntry::Function { name, mutability, .. } => if is_callback_spec(name@) {
            Some(FunctionCategory::Callback)
        } else if mutability == StateMutability::View || mutability == StateMutability::Pure {
            Some(FunctionCategory::ReadOnly)
        } else {
            Some(FunctionCategory::StateChanging)
        },
        AbiEntry::Receive => Some(FunctionCategory::Special),
        AbiEntry::Fallback => Some(FunctionCategory::Special),
        AbiEntry::Other => None,
    }
}

/// The listed entry of an ABI entry.
pub open spec fn entry_info(ix: FunctionIndex, c: Seq<char>, sf: Option<Seq<char>>, e: AbiEntry) -> (
    Seq<char>,
    Option<(Seq<char>, usize, usize, usize)>,
    Visibility,
    StateMutability,
    Seq<Seq<char>>,
) {
    match e {
        AbiEntry::Function { name, inputs, mutability } => function_info_spec(ix, c, name@, inputs@, mutability),
        AbiEntry::Receive => special_info_spec(ix, c, DeclKind::Receive, sf),
        _ => special_info_spec(ix, c, DeclKind::Fallback, sf),
    }
}

/// The ERC receiver callbacks (`onERC721Received`, `onERC1155Received`,
/// `onERC1155BatchReceived`) are listed as callbacks whatever their
/// mutability: such an ABI function adds its entry to the callback list and
/// to no other list.
pub proof fn lemma_receiver_callbacks_listed(
    ix: FunctionIndex,
    c: Seq<char>,
    sf: Option<Seq<char>>,
    es: Seq<AbiEntry>,
    k: int,
)
    requires
        0 <= k < es.len(),
        es[k] matches AbiEntry::Function { name, .. } && (name@ == "onERC721Received"@ || name@ == "onERC1155Received"@
            || name@ == "onERC1155BatchReceived"@),
    ensures
        infos_in(ix, c, sf, es, FunctionCategory::Callback, k + 1) == infos_in(ix, c, sf, es, FunctionCategory::Callback, k).push(
            entry_info(ix, c, sf, es[k]),
        ),
        infos_in(ix, c, sf, es, FunctionCategory::StateChanging, k + 1) == infos_in(ix, c, sf, es, FunctionCategory::StateChanging, k),
        infos_in(ix, c, sf, es, FunctionCategory::ReadOnly, k + 1) == infos_in(ix, c, sf, es, FunctionCategory::ReadOnly, k),
        infos_in(ix, c, sf, es, FunctionCategory::Special, k + 1) == infos_in(ix, c, sf, es, FunctionCategory::Special, k),
{
    reveal_strlit("onERC721Received");
    reveal_strlit("onERC1155Received");
    reveal_strlit("onERC1155BatchReceived");
    assert(entry_category(es[k]) == Some(FunctionCategory::Callback));
}

/// The entries of category `cat` among `es[0..k]`, in ABI order.
pub open spec fn infos_in(ix: FunctionIndex, c: Seq<char>, sf: Option<Seq<char>>, es: Seq<AbiEntry>, cat: FunctionCategory, k: int) -> Seq<(
    Seq<char>,
    Option<(Seq<char>, usize, usize, usize)>,
    Visibility,
    StateMutability,
    Seq<Seq<char>>,
)>
    decreases k,
{
    if k <= 0 || k > es.len() {
        Seq::empty()
    } else if entry_category(es[k - 1]) == Some(cat) {
        infos_in(ix, c, sf, es, cat, k - 1).push(entry_info(ix, c, sf, es[k - 1]))
    } else {
        infos_in(ix, c, sf, es, cat, k - 1)
    }
}

/// A copy of a list of strings.
fn copy_texts(v: &Vec<String>) -> (r: Vec<String>)
    ensures
        texts_view(r@) == texts_view(v@),
{
    let mut r: Vec<String> = Vec::new();
    let mut i: usize = 0;
    while i < v.len()
        invariant
            i <= v@.len(),
            texts_view(r@) == texts_view(v@).take(i as int),
        decreases v@.len() - i,
    {
        let t = v[i].clone();
        let ghost r0 = r@;
        r.push(t);
        assert(texts_view(r@) =~= texts_view(r0).push(t@));
        assert(texts_view(r@) =~= texts_view(v@).take(i + 1));
        i = i + 1;
    }
    assert(texts_view(v@).take(v@.len() as int) =~= texts_view(v@));
    r
}

/// Where a declaration is.
fn decl_source_exec(d: &IndexedDecl) -> (r: SourceInfo)
    ensures
        (r.file@, r.offset, r.length, r.line) == decl_source(*d),
{
    let file = match &d.file {
        Some(f) => f.clone(),
        None => String::new(),
    };
    let line: usize = match d.line {
        Some(l) => l,
        None => 0,
    };
    SourceInfo { file, offset: d.offset, length: d.length, line }
}

/// The entry of an ABI function of contract `c`.
fn function_info(ix: &FunctionIndex, c: &str, name: &String, inputs: &Vec<AbiParam>, m: StateMutability) -> (r: ExternalFunctionInfo)
    ensures
        info_view(r) == function_info_spec(*ix, c@, name@, inputs@, m),
{
    let signature = external_function_signature(name.as_str(), inputs);
    let key = abi_param_signature(inputs);
    let nm = name.as_str();
    let ks = key.as_str();
    assert(nm@ == name@);
    assert(ks@ == abi_key_spec(inputs@));
    let res = resolve_function(ix, c, nm, ks);
    let nd = ix.decls.len();
    match res {
        Some(i) => {
            proof {
                match resolve_spec(*ix, c@, name@, abi_key_spec(inputs@)) {
                    Some(j) => assert(j == i as int),
                    None => assert(false),
                }
            }
            let d = &ix.decls[i];
            let src = decl_source_exec(d);
            let mods = copy_texts(&d.modifiers);
            let r = ExternalFunctionInfo { signature, source: Some(src), visibility: d.visibility, mutability: m, modifiers: mods };
            assert(info_view(r).1 == Some(decl_source(*d)));
            r
        },
        None => {
            let r = ExternalFunctionInfo {
                signature,
                source: None,
                visibility: Visibility::External,
                mutability: m,
                modifiers: Vec::new(),
            };
            assert(texts_view(r.modifiers@) =~= Seq::<Seq<char>>::empty());
            r
        },
    }
}

/// The entry of contract `c`'s `receive` or `fallback`.
fn special_info(ix: &FunctionIndex, c: &str, kind: DeclKind, sf: &Option<String>) -> (r: ExternalFunctionInfo)
    requires
        kind == DeclKind::Receive || kind == DeclKind::Fallback,
    ensures
        info_view(r) == special_info_spec(*ix, c@, kind, opt_view(*sf)),
{
    let signature = if kind == DeclKind::Receive {
        String::from_str("receive()")
    } else {
        String::from_str("fallback()")
    };
    let mutability = if kind == DeclKind::Receive {
        StateMutability::Payable
    } else {
        StateMutability::Nonpayable
    };
    let source = match last_special_exec(&ix.decls, c, kind) {
        Some(i) => Some(decl_source_exec(&ix.decls[i])),
        None => match sf {
            Some(f) => Some(SourceInfo { file: f.clone(), offset: 0, length: 0, line: 0 }),
            None => None,
        },
    };
    let r = ExternalFunctionInfo { signature, source, visibility: Visibility::External, mutability, modifiers: Vec::new() };
    assert(texts_view(r.modifiers@) =~= Seq::<Seq<char>>::empty());
    r
}

/// Sort the ABI entries of contract `contract_name` into categories, each
/// matched to its declaration in `index`; `source_file` is the contract's
/// file.
pub fn inspect_functions(
    abi: &Vec<AbiEntry>,
    index: &FunctionIndex,
    contract_name: &str,
    source_file: Option<String>,
) -> (r: ExternalFunctionInspectorOutput)
    ensures
        r.contract_name@ == contract_name@,
        r.source_file == source_file,
        ({
            let sf = opt_view(source_file);
            let n = abi@.len() as int;
            &&& infos_view(r.state_changing@) == infos_in(*index, contract_name@, sf, abi@, FunctionCategory::StateChanging, n)
            &&& infos_view(r.callback@) == infos_in(*index, contract_name@, sf, abi@, FunctionCategory::Callback, n)
            &&& infos_view(r.special@) == infos_in(*index, contract_name@, sf, abi@, FunctionCategory::Special, n)
            &&& infos_view(r.read_only@) == infos_in(*index, contract_name@, sf, abi@, FunctionCategory::ReadOnly, n)
        }),
{
    let ghost sf = opt_view(source_file);
    let mut state_changing: Vec<ExternalFunctionInfo> = Vec::new();
    let mut callback: Vec<ExternalFunctionInfo> = Vec::new();
    let mut special: Vec<ExternalFunctionInfo> = Vec::new();
    let mut read_only: Vec<ExternalFunctionInfo> = Vec::new();
    let mut k: usize = 0;
    while k < abi.len()
        invariant
            sf == opt_view(source_file),
            k <= abi@.len(),
            infos_view(state_changing@) == infos_in(*index, contract_name@, sf, abi@, FunctionCategory::StateChanging, k as int),
            infos_view(callback@) == infos_in(*index, contract_name@, sf, abi@, FunctionCategory::Callback, k as int),
            infos_view(special@) == infos_in(*index, contract_name@, sf, abi@, FunctionCategory::Special, k as int),
            infos_view(read_only@) == infos_in(*index, contract_name@, sf, abi@, FunctionCategory::ReadOnly, k as int),
        decreases abi@.len() - k,
    {
        match &abi[k] {
            AbiEntry::Function { name, inputs, mutability } => {
                let info = function_info(index, contract_name, name, inputs, *mutability);
                if is_callback_function(name.as_str()) {
                    let ghost v0 = callback@;
                    callback.push(info);
                    assert(infos_view(callback@) =~= infos_view(v0).push(info_view(info)));
                } else if *mutability == StateMutability::View || *mutability == StateMutability::Pure {
                    let ghost v0 = read_only@;
                    read_only.push(info);
                    assert(infos_view(read_only@) =~= infos_view(v0).push(info_view(info)));
                } else {
                    let ghost v0 = state_changing@;
                    state_changing.push(info);
                    assert(infos_view(state_changing@) =~= infos_view(v0).push(info_view(info)));
                }
            },
            AbiEntry::Receive => {
                let info = special_info(index, contract_name, DeclKind::Receive, &source_file);
                let ghost v0 = special@;
                special.push(info);
                assert(infos_view(special@) =~= infos_view(v0).push(info_view(info)));
            },
            AbiEntry::Fallback => {
                let info = special_info(index, contract_name, DeclKind::Fallback, &source_file);
                let ghost v0 = special@;
                special.push(info);
                assert(infos_view(special@) =~= infos_view(v0).push(info_view(info)));
            },
            AbiEntry::Other => {},
        }
        k = k + 1;
    }
    ExternalFunctionInspectorOutput {
        contract_name: String::from_str(contract_name),
        source_file,
        state_changing,
        callback,
        special,
        read_only,
    }
}


// ---------------------------------------------------------------------------
// The report
// ---------------------------------------------------------------------------

/// Text of a state mutability.
pub open spec fn mutability_spec(m: StateMutability) -> Seq<char> {
    match m {
        StateMutability::Pure => "pure"@,
        StateMutability::View => "view"@,
        StateMutability::Nonpayable => "nonpayable"@,
        StateMutability::Payable => "payable"@,
    }
}

/// Text of a state mutability.
pub fn mutability_str(m: StateMutability) -> (r: String)
    ensures
        r@ == mutability_spec(m),
{
    match m {
        StateMutability::Pure => String::from_str("pure"),
        StateMutability::View => String::from_str("view"),
        StateMutability::Nonpayable => String::from_str("nonpayable"),
        StateMutability::Payable => String::from_str("payable"),
    }
}

/// The lines of the `n`-th entry of a section.
pub open spec fn entry_lines(n: nat, f: (
    Seq<char>,
    Option<(Seq<char>, usize, usize, usize)>,
    Visibility,
    StateMutability,
    Seq<Seq<char>>,
)) -> Seq<char> {
    decimal(n) + ". "@ + f.0 + "\n"@ + match f.1 {
        Some(src) => "   source: "@ + src.0 + ":"@ + decimal(src.3 as nat) + "\n"@,
        None => Seq::empty(),
    } + "   visibility: "@ + visibility_spec(f.2) + "\n"@ + "   mutability: "@ + mutability_spec(f.3) + "\n"@ + if f.4.len() == 0 {
        "   modifiers: none\n"@
    } else {
        "   modifiers: "@ + join_spec(f.4, ", "@) + "\n"@
    } + "\n"@
}

/// The entries `fs[0..k]` of a section.
pub open spec fn section_entries(fs: Seq<(
    Seq<char>,
    Option<(Seq<char>, usize, usize, usize)>,
    Visibility,
    StateMutability,
    Seq<Seq<char>>,
)>, k: int) -> Seq<char>
    decreases k,
{
    if k <= 0 || k > fs.len() {
        Seq::empty()
    } else {
        section_entries(fs, k - 1) + entry_lines(k as nat, fs[k - 1])
    }
}

/// A section: nothing when empty, else its title and entries.
pub open spec fn section_spec(title: Seq<char>, fs: Seq<(
    Seq<char>,
    Option<(Seq<char>, usize, usize, usize)>,
    Visibility,
    StateMutability,
    Seq<Seq<char>>,
)>) -> Seq<char> {
    if fs.len() == 0 {
        Seq::empty()
    } else {
        title + "\n\n"@ + section_entries(fs, fs.len() as int)
    }
}

/// The report of an inspection.
pub open spec fn report_spec(o: ExternalFunctionInspectorOutput) -> Seq<char> {
    let sc = o.state_changing@.len();
    let cb = o.callback@.len();
    let sp = o.special@.len();
    let ro = o.read_only@.len();
    "Contract: "@ + o.contract_name@ + "\n"@ + match o.source_file {
        Some(f) => "File: "@ + f@ + "\n"@,
        None => Seq::empty(),
    } + "\nSummary:\n- "@ + decimal(sc + cb + sp + ro) + " externally callable functions\n- "@ + decimal(sc)
        + " mutable functions\n- "@ + decimal(ro) + " view functions\n- "@ + decimal(cb) + " callback functions\n- "@
        + decimal(sp) + " special functions\n\n"@ + section_spec("MUTABLE FUNCTIONS"@, infos_view(o.state_changing@))
        + section_spec("VIEW FUNCTIONS"@, infos_view(o.read_only@)) + section_spec("CALLBACK FUNCTIONS"@, infos_view(o.callback@))
        + section_spec("SPECIAL FUNCTIONS"@, infos_view(o.special@))
}

/// The lines of the `n`-th entry of a section.
fn entry_text(n: usize, f: &ExternalFunctionInfo) -> (e: String)
    ensures
        e@ == entry_lines(n as nat, info_view(*f)),
{
    let mut e = decimal_exec(n);
    push_str(&mut e, ". ");
    push_str(&mut e, f.signature.as_str());
    push_str(&mut e, "\n");
    match &f.source {
        Some(src) => {
            push_str(&mut e, "   source: ");
            push_str(&mut e, src.file.as_str());
            push_str(&mut e, ":");
            let l = decimal_exec(src.line);
            push_str(&mut e, l.as_str());
            push_str(&mut e, "\n");
        },
        None => {},
    }
    push_str(&mut e, "   visibility: ");
    let v = visibility_str(f.visibility);
    push_str(&mut e, v.as_str());
    push_str(&mut e, "\n");
    push_str(&mut e, "   mutability: ");
    let m = mutability_str(f.mutability);
    push_str(&mut e, m.as_str());
    push_str(&mut e, "\n");
    if f.modifiers.len() == 0 {
        push_str(&mut e, "   modifiers: none\n");
    } else {
        push_str(&mut e, "   modifiers: ");
        let j = crate::strings::join_texts(&f.modifiers, ", ");
        push_str(&mut e, j.as_str());
        push_str(&mut e, "\n");
    }
    push_str(&mut e, "\n");
    assert(e@ =~= entry_lines(n as nat, info_view(*f)));
    e
}

/// Append a section.
fn write_section(out: &mut String, title: &str, funcs: &Vec<ExternalFunctionInfo>)
    ensures
        final(out)@ == old(out)@ + section_spec(title@, infos_view(funcs@)),
{
    if funcs.len() == 0 {
        return;
    }
    let ghost fs = infos_view(funcs@);
    push_str(out, title);
    push_str(out, "\n\n");
    let ghost head = out@;
    let mut i: usize = 0;
    while i < funcs.len()
        invariant
            fs == infos_view(funcs@),
            i <= funcs@.len(),
            out@ == head + section_entries(fs, i as int),
        decreases funcs@.len() - i,
    {
        let f = &funcs[i];
        assert(fs[i as int] == info_view(*f));
        let e = entry_text(i + 1, f);
        push_str(out, e.as_str());
        assert(out@ =~= head + section_entries(fs, i + 1));
        i = i + 1;
    }
    assert(out@ =~= old(out)@ + section_spec(title@, fs));
}

impl ExternalFunctionInspectorOutput {
    /// The report listing the functions by category.
    #[verifier::rlimit(40)]
    pub fn to_string(&self) -> (r: String)
        requires
            self.state_changing@.len() + self.callback@.len() + self.special@.len() + self.read_only@.len() <= usize::MAX,
        ensures
            r@ == report_spec(*self),
    {
        let sc = self.state_changing.len();
        let cb = self.callback.len();
        let sp = self.special.len();
        let ro = self.read_only.len();
        let mut r = String::from_str("Contract: ");
        push_str(&mut r, self.contract_name.as_str());
        push_str(&mut r, "\n");
        match &self.source_file {
            Some(f) => {
                push_str(&mut r, "File: ");
                push_str(&mut r, f.as_str());
                push_str(&mut r, "\n");
            },
            None => {},
        }
        push_str(&mut r, "\nSummary:\n- ");
        let t = decimal_exec(sc + cb + sp + ro);
        push_str(&mut r, t.as_str());
        push_str(&mut r, " externally callable functions\n- ");
        let a = decimal_exec(sc);
        push_str(&mut r, a.as_str());
        push_str(&mut r, " mutable functions\n- ");
        let b = decimal_exec(ro);
        push_str(&mut r, b.as_str());
        push_str(&mut r, " view functions\n- ");
        let c = decimal_exec(cb);
        push_str(&mut r, c.as_str());
        push_str(&mut r, " callback functions\n- ");
        let d = decimal_exec(sp);
        push_str(&mut r, d.as_str());
        push_str(&mut r, " special functions\n\n");
        write_section(&mut r, "MUTABLE FUNCTIONS", &self.state_changing);
        write_section(&mut r, "VIEW FUNCTIONS", &self.read_only);
        write_section(&mut r, "CALLBACK FUNCTIONS", &self.callback);
        write_section(&mut r, "SPECIAL FUNCTIONS", &self.special);
        assert(r@ =~= report_spec(*self));
        r
    }
}


// ---------------------------------------------------------------------------
// Building the index
// ---------------------------------------------------------------------------

/// Whether the index records a declaration: external and public functions,
/// public state variables.
pub open spec fn eligible(d: IndexedDecl) -> bool {
    if d.kind == DeclKind::Variable {
        d.visibility == Visibility::Public
    } else {
        d.visibility == Visibility::External || d.visibility == Visibility::Public
    }
}

impl FunctionIndex {
    /// An empty index.
    pub fn new() -> (r: Self)
        ensures
            r.decls@.len() == 0,
            r.interfaces@.len() == 0,
    {
        FunctionIndex { decls: Vec::new(), interfaces: Vec::new() }
    }

    /// Record a declaration, when it is externally callable.
    pub fn register(&mut self, d: IndexedDecl)
        ensures
            final(self).decls@ == if eligible(d) { old(self).decls@.push(d) } else { old(self).decls@ },
            final(self).interfaces@ == old(self).interfaces@,
    {
        let ok = if d.kind == DeclKind::Variable {
            d.visibility == Visibility::Public
        } else {
            d.visibility == Visibility::External || d.visibility == Visibility::Public
        };
        if ok {
            self.decls.push(d);
        }
    }

    /// Record that contract `name` is an interface.
    pub fn add_interface(&mut self, name: String)
        ensures
            final(self).interfaces@ == old(self).interfaces@.push(name),
            final(self).decls@ == old(self).decls@,
    {
        self.interfaces.push(name);
    }
}

/// `s` without carriage returns.
pub open spec fn no_cr(s: Seq<char>) -> Seq<char>
    decreases s.len(),
{
    if s.len() == 0 {
        Seq::empty()
    } else if s.last() == '\r' {
        no_cr(s.drop_last())
    } else {
        no_cr(s.drop_last()).push(s.last())
    }
}

/// The line feeds of `s` (carriage returns removed) that lie before byte
/// `offset`.
pub open spec fn lf_before(s: Seq<char>, offset: nat) -> nat
    decreases s.len(),
{
    if s.len() == 0 {
        0
    } else {
        let t = s.drop_last();
        lf_before(t, offset) + if s.last() == '\n' && byte_len(no_cr(t)) < offset {
            1nat
        } else {
            0nat
        }
    }
}

/// The 1-based line of byte `offset` of a source file, counting line feeds
/// once carriage returns are removed.
pub fn index_line(content: &str, offset: usize) -> (r: usize)
    requires
        content@.len() < usize::MAX,
    ensures
        r == lf_before(content@, offset as nat) + 1,
{
    let v = chars_of(content);
    let mut bytes: u128 = 0;
    let mut count: usize = 0;
    let mut i: usize = 0;
    while i < v.len()
        invariant
            v@ == content@,
            i <= v@.len(),
            v@.len() < usize::MAX,
            bytes as nat == byte_len(no_cr(v@.take(i as int))),
            bytes <= 4 * i,
            count as nat == lf_before(v@.take(i as int), offset as nat),
            count <= i,
        decreases v@.len() - i,
    {
        let c = v[i];
        proof {
            assert(v@.take(i + 1).drop_last() =~= v@.take(i as int));
            assert(v@.take(i + 1).last() == c);
            if c != '\r' {
                crate::strings::lemma_byte_len_push(no_cr(v@.take(i as int)), c);
            }
        }
        if c == '\n' && bytes < offset as u128 {
            count = count + 1;
        }
        if c != '\r' {
            bytes = bytes + crate::strings::utf8_width_exec(c) as u128;
        }
        i = i + 1;
    }
    assert(v@.take(v@.len() as int) =~= v@);
    count + 1
}

} // verus!
