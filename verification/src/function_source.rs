//! Choosing the declaration a function-source query names: the functions
//! (and public state variables) a contract declares or inherits that match
//! the query, the most-derived of inherited overrides, and the messages for
//! a name that matches nothing or several declarations.
use vstd::prelude::*;
use crate::ast::{display_name_spec, format_params, function_name_for_display, params_text, FunctionKind, TypeName, TypeStyle};
use crate::artifact_index::{qualified_name, qualified_name_spec, ArtifactEntry};
use crate::call_engine::{order_pos, Program};
use crate::call_graph::path_keys;
use crate::call_inherit::{
    extends_names, find_contract, find_contract_exec, find_symbol_in, find_symbol_in_exec, inh_measure,
    lemma_extends_names_contains, lemma_names_unvisited_mono, names_contain, names_view, symbol_names,
};
use crate::order::{dedup_spec, dedup_texts, is_stable_order, sort_texts, sorted_order, stable_order, texts_sorted, texts_view};
use crate::strings::{
    before_first, occurs_at, chars_eq, chars_of, decimal, decimal_exec, ends_with, find_exec, find_spec, join_spec, join_texts,
    push_str, split_once_spec, string_of_range,
};

verus! {

/// A resolved declaration with its source location and AST node type.
#[derive(Debug)]
pub struct ResolvedSymbol {
    /// Human-readable signature, e.g. `Main.execute(uint256)` or `Data`.
    pub symbol: String,
    /// The source file path.
    pub file: String,
    /// Byte offset in the source.
    pub offset: usize,
    /// Byte length of the definition.
    pub length: usize,
    /// Solc AST node type (e.g. `FunctionDefinition`).
    pub node_type: String,
}

/// A function or state variable declared in a contract.
pub struct MemberDecl {
    pub name: String,
    pub kind: FunctionKind,
    /// A state variable rather than a function.
    pub is_variable: bool,
    /// For a state variable: whether it is public.
    pub is_public: bool,
    /// For a function: whether it has a body.
    pub implemented: bool,
    pub parameters: Vec<TypeName>,
    pub offset: usize,
    pub length: usize,
}

/// A contract definition: its name, whether it is an interface, and its
/// members in source order.
pub struct ContractMembers {
    pub name: String,
    pub is_interface: bool,
    pub members: Vec<MemberDecl>,
}

/// The contracts of one source unit, with the file the unit records.
pub struct SourceContracts {
    pub file: String,
    pub contracts: Vec<ContractMembers>,
}

/// The base contracts of a query, each with the position of its
/// artifact's source unit.
pub open spec fn bases_view(v: Seq<(String, usize)>) -> Seq<(Seq<char>, usize)> {
    v.map_values(|b: (String, usize)| (b.0@, b.1))
}

/// Specification value of a resolved symbol.
pub open spec fn sym_view(s: ResolvedSymbol) -> (Seq<char>, Seq<char>, usize, usize, Seq<char>) {
    (s.symbol@, s.file@, s.offset, s.length, s.node_type@)
}

/// Specification values of a list of resolved symbols.
pub open spec fn syms_view(v: Seq<ResolvedSymbol>) -> Seq<(Seq<char>, Seq<char>, usize, usize, Seq<char>)> {
    v.map_values(|s: ResolvedSymbol| sym_view(s))
}

/// Constructors, `receive` and `fallback`.
pub open spec fn is_special(k: FunctionKind) -> bool {
    k == FunctionKind::Constructor || k == FunctionKind::Receive || k == FunctionKind::Fallback
}

/// Whether a member is listed: a public state variable, or a function that
/// has a body (or is declared by the queried interface itself); inherited
/// constructors are not listed.
pub open spec fn member_listed(c: ContractMembers, m: MemberDecl, own: bool) -> bool {
    if m.is_variable {
        m.is_public
    } else {
        (m.implemented || (own && c.is_interface))
            && (!is_special(m.kind) || own || m.kind == FunctionKind::Receive || m.kind == FunctionKind::Fallback)
    }
}

/// The name a member is listed under.
pub open spec fn member_name(m: MemberDecl) -> Seq<char> {
    if m.is_variable {
        m.name@
    } else {
        display_name_spec(m.kind, m.name@)
    }
}

/// The symbol of a member of contract `contract`: `C.name(types)` for a
/// function, `C.name` for a state variable.
pub open spec fn member_symbol(contract: Seq<char>, m: MemberDecl) -> Seq<char> {
    if m.is_variable {
        contract + "."@ + m.name@
    } else {
        contract + "."@ + display_name_spec(m.kind, m.name@) + "("@ + params_text(m.parameters@, TypeStyle::Plain) + ")"@
    }
}

/// The AST node type of a member.
pub open spec fn member_node_type(m: MemberDecl) -> Seq<char> {
    if m.is_variable {
        "VariableDeclaration"@
    } else {
        "FunctionDefinition"@
    }
}

/// Whether a symbol is among `acc`.
pub open spec fn has_symbol(acc: Seq<(Seq<char>, Seq<char>, usize, usize, Seq<char>)>, sym: Seq<char>) -> bool {
    exists|i: int| 0 <= i < acc.len() && (#[trigger] acc[i]).0 == sym
}

/// Add a symbol unless one with the same text is there (the first wins).
pub open spec fn insert_sym(
    acc: Seq<(Seq<char>, Seq<char>, usize, usize, Seq<char>)>,
    s: (Seq<char>, Seq<char>, usize, usize, Seq<char>),
) -> Seq<(Seq<char>, Seq<char>, usize, usize, Seq<char>)> {
    if has_symbol(acc, s.0) {
        acc
    } else {
        acc.push(s)
    }
}

/// Add the members `c.members[0..k]` listed under `fname`.
pub open spec fn add_members(
    acc: Seq<(Seq<char>, Seq<char>, usize, usize, Seq<char>)>,
    file: Seq<char>,
    c: ContractMembers,
    contract: Seq<char>,
    fname: Seq<char>,
    own: bool,
    k: int,
) -> Seq<(Seq<char>, Seq<char>, usize, usize, Seq<char>)>
    decreases k,
{
    if k <= 0 || k > c.members@.len() {
        acc
    } else {
        let prev = add_members(acc, file, c, contract, fname, own, k - 1);
        let m = c.members@[k - 1];
        if member_listed(c, m, own) && member_name(m) == fname {
            insert_sym(prev, (member_symbol(contract, m), file, m.offset, m.length, member_node_type(m)))
        } else {
            prev
        }
    }
}

/// Add the matching members of the contracts named `contract` among
/// `sc.contracts[0..k]`.
pub open spec fn add_contracts(
    acc: Seq<(Seq<char>, Seq<char>, usize, usize, Seq<char>)>,
    sc: SourceContracts,
    contract: Seq<char>,
    fname: Seq<char>,
    own: bool,
    k: int,
) -> Seq<(Seq<char>, Seq<char>, usize, usize, Seq<char>)>
    decreases k,
{
    if k <= 0 || k > sc.contracts@.len() {
        acc
    } else {
        let prev = add_contracts(acc, sc, contract, fname, own, k - 1);
        let c = sc.contracts@[k - 1];
        if c.name@ == contract {
            add_members(prev, sc.file@, c, contract, fname, own, c.members@.len() as int)
        } else {
            prev
        }
    }
}

/// Add the matching members of the base contracts `bases[0..k]`.
pub open spec fn add_bases(
    acc: Seq<(Seq<char>, Seq<char>, usize, usize, Seq<char>)>,
    sources: Seq<SourceContracts>,
    bases: Seq<(Seq<char>, usize)>,
    fname: Seq<char>,
    k: int,
) -> Seq<(Seq<char>, Seq<char>, usize, usize, Seq<char>)>
    decreases k,
{
    if k <= 0 || k > bases.len() {
        acc
    } else {
        let prev = add_bases(acc, sources, bases, fname, k - 1);
        let b = bases[k - 1];
        if (b.1 as int) < sources.len() {
            add_contracts(prev, sources[b.1 as int], b.0, fname, false, sources[b.1 as int].contracts@.len() as int)
        } else {
            prev
        }
    }
}

/// The declarations a query for `fname` finds in contract `contract` (whose
/// source unit is `own`) and its bases, first of each symbol kept.
pub open spec fn found_symbols(
    own: SourceContracts,
    contract: Seq<char>,
    sources: Seq<SourceContracts>,
    bases: Seq<(Seq<char>, usize)>,
    fname: Seq<char>,
) -> Seq<(
    Seq<char>,
    Seq<char>,
    usize,
    usize,
    Seq<char>,
)> {
    let a = add_contracts(Seq::empty(), own, contract, fname, true, own.contracts@.len() as int);
    add_bases(a, sources, bases, fname, bases.len() as int)
}

/// Names of the listed members of `c.members[0..k]`.
pub open spec fn listed_names(c: ContractMembers, own: bool, k: int) -> Seq<Seq<char>>
    decreases k,
{
    if k <= 0 || k > c.members@.len() {
        Seq::empty()
    } else {
        let prev = listed_names(c, own, k - 1);
        let m = c.members@[k - 1];
        if member_listed(c, m, own) {
            prev.push(member_name(m))
        } else {
            prev
        }
    }
}

/// Names listed by the contracts named `contract` among `sc.contracts[0..k]`.
pub open spec fn source_names(sc: SourceContracts, contract: Seq<char>, own: bool, k: int) -> Seq<Seq<char>>
    decreases k,
{
    if k <= 0 || k > sc.contracts@.len() {
        Seq::empty()
    } else {
        let c = sc.contracts@[k - 1];
        source_names(sc, contract, own, k - 1) + if c.name@ == contract {
            listed_names(c, own, c.members@.len() as int)
        } else {
            Seq::empty()
        }
    }
}

/// Names listed by the bases `bases[0..k]`.
pub open spec fn base_names(sources: Seq<SourceContracts>, bases: Seq<(Seq<char>, usize)>, k: int) -> Seq<Seq<char>>
    decreases k,
{
    if k <= 0 || k > bases.len() {
        Seq::empty()
    } else {
        let b = bases[k - 1];
        base_names(sources, bases, k - 1) + if (b.1 as int) < sources.len() {
            source_names(sources[b.1 as int], b.0, false, sources[b.1 as int].contracts@.len() as int)
        } else {
            Seq::empty()
        }
    }
}

/// Every function name a contract offers, sorted, without repeats.
pub open spec fn available_names(
    own: SourceContracts,
    contract: Seq<char>,
    sources: Seq<SourceContracts>,
    bases: Seq<(Seq<char>, usize)>,
) -> Seq<Seq<char>> {
    dedup_spec(texts_sorted(
        source_names(own, contract, true, own.contracts@.len() as int) + base_names(sources, bases, bases.len() as int),
    ))
}

/// The inheritance order: the contract, then each base not named before.
pub open spec fn order_of(contract: Seq<char>, bases: Seq<(Seq<char>, usize)>, k: int) -> Seq<Seq<char>>
    decreases k,
{
    if k <= 0 || k > bases.len() {
        seq![contract]
    } else {
        let prev = order_of(contract, bases, k - 1);
        if prev.contains(bases[k - 1].0) {
            prev
        } else {
            prev.push(bases[k - 1].0)
        }
    }
}

/// The text of a symbol after its first `.` (all of it without one).
pub open spec fn after_dot(sym: Seq<char>) -> Seq<char> {
    match split_once_spec(sym, "."@) {
        Some((_, r)) => r,
        None => sym,
    }
}

/// Position of a text in an order (`usize::MAX` when absent).
pub open spec fn pos_in(order: Seq<Seq<char>>, name: Seq<char>) -> int {
    if order.contains(name) {
        choose|i: int| 0 <= i < order.len() && order[i] == name && forall|j: int| 0 <= j < i ==> order[j] != name
    } else {
        usize::MAX as int
    }
}

/// How close a symbol's contract is to the queried one, then its offset.
pub open spec fn sym_rank(s: (Seq<char>, Seq<char>, usize, usize, Seq<char>), order: Seq<Seq<char>>) -> (int, int) {
    (pos_in(order, before_first(s.0, "."@)), s.2 as int)
}

/// Lexicographic order of ranks.
pub open spec fn rank_le(a: (int, int), b: (int, int)) -> bool {
    a.0 < b.0 || (a.0 == b.0 && a.1 <= b.1)
}

/// `ss[i]` has the least rank, and no other symbol has the same rank.
pub open spec fn is_unique_best(ss: Seq<(Seq<char>, Seq<char>, usize, usize, Seq<char>)>, order: Seq<Seq<char>>, i: int) -> bool {
    &&& 0 <= i < ss.len()
    &&& forall|j: int| 0 <= j < ss.len() ==> rank_le(sym_rank(ss[i], order), #[trigger] sym_rank(ss[j], order))
    &&& forall|j: int| 0 <= j < ss.len() && j != i ==> #[trigger] sym_rank(ss[j], order) != sym_rank(ss[i], order)
}

/// The symbols among `ss[0..k]` a parameterised query matches: the exact
/// signature, or any symbol ending in `.fname`.
pub open spec fn exact_matches(
    ss: Seq<(Seq<char>, Seq<char>, usize, usize, Seq<char>)>,
    contract: Seq<char>,
    fname: Seq<char>,
    k: int,
) -> Seq<(Seq<char>, Seq<char>, usize, usize, Seq<char>)>
    decreases k,
{
    if k <= 0 || k > ss.len() {
        Seq::empty()
    } else {
        let prev = exact_matches(ss, contract, fname, k - 1);
        let s = ss[k - 1];
        if s.0 == contract + "."@ + fname || ends_with(s.0, "."@ + fname) {
            prev.push(s)
        } else {
            prev
        }
    }
}

/// All symbols have the same signature after the contract name.
pub open spec fn same_signature(ss: Seq<(Seq<char>, Seq<char>, usize, usize, Seq<char>)>) -> bool {
    forall|i: int, j: int| 0 <= i < ss.len() && 0 <= j < ss.len() ==> after_dot(#[trigger] ss[i].0) == after_dot(#[trigger] ss[j].0)
}

/// The texts of the symbols.
pub open spec fn symbol_texts(ss: Seq<(Seq<char>, Seq<char>, usize, usize, Seq<char>)>) -> Seq<Seq<char>> {
    ss.map_values(|s: (Seq<char>, Seq<char>, usize, usize, Seq<char>)| s.0)
}

/// One suggestion line per text of `syms[0..k]`.
pub open spec fn suggestions(syms: Seq<Seq<char>>, contract: Seq<char>, k: int) -> Seq<char>
    decreases k,
{
    if k <= 0 || k > syms.len() {
        Seq::empty()
    } else {
        suggestions(syms, contract, k - 1) + "\nsolray inspect function-source "@ + contract + " \""@ + after_dot(syms[k - 1])
            + "\""@
    }
}

/// The suggestion block for symbols `ss`, sorted.
pub open spec fn suggestion_block(ss: Seq<(Seq<char>, Seq<char>, usize, usize, Seq<char>)>, contract: Seq<char>) -> Seq<char> {
    let sorted = texts_sorted(symbol_texts(ss));
    suggestions(sorted, contract, sorted.len() as int) + "\n"@
}

/// The message for several matching declarations.
pub open spec fn ambiguous_message(ss: Seq<(Seq<char>, Seq<char>, usize, usize, Seq<char>)>, contract: Seq<char>, fname: Seq<char>) -> Seq<char> {
    "found "@ + decimal(ss.len()) + " \""@ + fname + "\"\n\nSelect one of the following:\n"@ + suggestion_block(ss, contract)
}

/// What a function-source query returns: the declaration it names, or the
/// error message.
pub open spec fn select_spec(
    own: SourceContracts,
    contract: Seq<char>,
    sources: Seq<SourceContracts>,
    bases: Seq<(Seq<char>, usize)>,
    fname: Seq<char>,
) -> Result<
    (Seq<char>, Seq<char>, usize, usize, Seq<char>),
    Seq<char>,
> {
    let is_exact = find_spec(fname, "("@) is Some;
    let base_name = before_first(fname, "("@);
    let fs = found_symbols(own, contract, sources, bases, base_name);
    let order = order_of(contract, bases, bases.len() as int);
    if fs.len() == 0 {
        Err("\""@ + fname + "\" not found in \""@ + contract + "\".\n\nAvailable functions in \""@ + contract + "\": "@
            + join_spec(available_names(own, contract, sources, bases), ", "@))
    } else if is_exact {
        let ms = exact_matches(fs, contract, fname, fs.len() as int);
        if ms.len() == 0 {
            Err("\""@ + fname + "\" not found in \""@ + contract + "\".\n\nSelect one of the following:\n"@
                + suggestion_block(fs, contract))
        } else if ms.len() == 1 {
            Ok(ms[0])
        } else if exists|i: int| is_unique_best(ms, order, i) {
            Ok(ms[choose|i: int| is_unique_best(ms, order, i)])
        } else {
            Err(ambiguous_message(ms, contract, fname))
        }
    } else if fs.len() == 1 {
        Ok(fs[0])
    } else if same_signature(fs) && exists|i: int| is_unique_best(fs, order, i) {
        Ok(fs[choose|i: int| is_unique_best(fs, order, i)])
    } else {
        Err(ambiguous_message(fs, contract, fname))
    }
}


/// A copy of a resolved symbol.
pub fn copy_symbol(s: &ResolvedSymbol) -> (r: ResolvedSymbol)
    ensures
        sym_view(r) == sym_view(*s),
{
    ResolvedSymbol {
        symbol: s.symbol.clone(),
        file: s.file.clone(),
        offset: s.offset,
        length: s.length,
        node_type: s.node_type.clone(),
    }
}

/// Whether `v` ends with `pat`.
fn ends_with_exec(v: &Vec<char>, pat: &Vec<char>) -> (b: bool)
    ensures
        b == ends_with(v@, pat@),
{
    if pat.len() > v.len() {
        return false;
    }
    let start = v.len() - pat.len();
    let r = crate::strings::range_eq(v, start, v.len(), pat);
    r
}

/// The text after the first `.` of a symbol.
fn after_dot_exec(sym: &str) -> (r: String)
    ensures
        r@ == after_dot(sym@),
{
    let v = chars_of(sym);
    let dot = chars_of(".");
    proof {
        reveal_strlit(".");
        assert(dot@.len() == 1);
    }
    match find_exec(&v, &dot) {
        Some(i) => {
            assert(occurs_at(v@, i as int, dot@));
            assert(i + 1 <= v@.len());
            assert(split_once_spec(sym@, "."@) == Some((v@.subrange(0, i as int), v@.subrange(i + 1, v@.len() as int))));
            let n = v.len();
            let j: usize = i + 1;
            string_of_range(&v, j, n)
        },
        None => String::from_str(sym),
    }
}

/// The text before the first `.` of a symbol.
fn before_dot_exec(sym: &str) -> (r: String)
    ensures
        r@ == before_first(sym@, "."@),
{
    let v = chars_of(sym);
    let dot = chars_of(".");
    match find_exec(&v, &dot) {
        Some(i) => string_of_range(&v, 0, i),
        None => String::from_str(sym),
    }
}

/// Whether a symbol with text `sym` is among `acc`.
fn has_symbol_exec(acc: &Vec<ResolvedSymbol>, sym: &str) -> (b: bool)
    ensures
        b == has_symbol(syms_view(acc@), sym@),
{
    let sv = chars_of(sym);
    let mut i: usize = 0;
    while i < acc.len()
        invariant
            sv@ == sym@,
            i <= acc@.len(),
            forall|j: int| 0 <= j < i ==> (#[trigger] syms_view(acc@)[j]).0 != sym@,
        decreases acc@.len() - i,
    {
        let av = chars_of(acc[i].symbol.as_str());
        if chars_eq(&av, &sv) {
            assert(syms_view(acc@)[i as int].0 == sym@);
            return true;
        }
        i = i + 1;
    }
    false
}

/// The symbol of a member.
fn member_symbol_exec(contract: &str, m: &MemberDecl) -> (r: String)
    ensures
        r@ == member_symbol(contract@, *m),
{
    let mut r = String::from_str(contract);
    push_str(&mut r, ".");
    if m.is_variable {
        push_str(&mut r, m.name.as_str());
    } else {
        let d = function_name_for_display(m.kind, m.name.as_str());
        push_str(&mut r, d.as_str());
        push_str(&mut r, "(");
        let ps = format_params(&m.parameters, TypeStyle::Plain);
        push_str(&mut r, ps.as_str());
        push_str(&mut r, ")");
    }
    r
}

/// Whether a member is listed.
fn member_listed_exec(c: &ContractMembers, m: &MemberDecl, own: bool) -> (b: bool)
    ensures
        b == member_listed(*c, *m, own),
{
    if m.is_variable {
        m.is_public
    } else {
        let special = m.kind == FunctionKind::Constructor || m.kind == FunctionKind::Receive || m.kind == FunctionKind::Fallback;
        (m.implemented || (own && c.is_interface))
            && (!special || own || m.kind == FunctionKind::Receive || m.kind == FunctionKind::Fallback)
    }
}

/// The name a member is listed under.
fn member_name_exec(m: &MemberDecl) -> (r: String)
    ensures
        r@ == member_name(*m),
{
    if m.is_variable {
        m.name.clone()
    } else {
        function_name_for_display(m.kind, m.name.as_str())
    }
}

/// Add the members of `c` listed under `fname`.
fn add_members_exec(
    acc: &mut Vec<ResolvedSymbol>,
    file: &String,
    c: &ContractMembers,
    contract: &str,
    fname: &str,
    own: bool,
)
    ensures
        syms_view(final(acc)@) == add_members(syms_view(old(acc)@), file@, *c, contract@, fname@, own, c.members@.len() as int),
{
    let ghost a0 = syms_view(acc@);
    let fv = chars_of(fname);
    let mut k: usize = 0;
    while k < c.members.len()
        invariant
            fv@ == fname@,
            k <= c.members@.len(),
            syms_view(acc@) == add_members(a0, file@, *c, contract@, fname@, own, k as int),
        decreases c.members@.len() - k,
    {
        let m = &c.members[k];
        if member_listed_exec(c, m, own) {
            let n = member_name_exec(m);
            let nv = chars_of(n.as_str());
            if chars_eq(&nv, &fv) {
                let sym = member_symbol_exec(contract, m);
                if !has_symbol_exec(acc, sym.as_str()) {
                    let nt = if m.is_variable {
                        String::from_str("VariableDeclaration")
                    } else {
                        String::from_str("FunctionDefinition")
                    };
                    let ghost before = acc@;
                    acc.push(ResolvedSymbol { symbol: sym, file: file.clone(), offset: m.offset, length: m.length, node_type: nt });
                    assert(syms_view(acc@) =~= syms_view(before).push(sym_view(acc@[before.len() as int])));
                }
            }
        }
        k = k + 1;
    }
}

/// Add the matching members of the contracts named `contract` in `sc`.
fn add_contracts_exec(acc: &mut Vec<ResolvedSymbol>, sc: &SourceContracts, contract: &str, fname: &str, own: bool)
    ensures
        syms_view(final(acc)@) == add_contracts(syms_view(old(acc)@), *sc, contract@, fname@, own, sc.contracts@.len() as int),
{
    let ghost a0 = syms_view(acc@);
    let cv = chars_of(contract);
    let mut k: usize = 0;
    while k < sc.contracts.len()
        invariant
            cv@ == contract@,
            k <= sc.contracts@.len(),
            syms_view(acc@) == add_contracts(a0, *sc, contract@, fname@, own, k as int),
        decreases sc.contracts@.len() - k,
    {
        let c = &sc.contracts[k];
        let nv = chars_of(c.name.as_str());
        if chars_eq(&nv, &cv) {
            add_members_exec(acc, &sc.file, c, contract, fname, own);
        }
        k = k + 1;
    }
}

/// The declarations a query for `fname` finds.
fn found_symbols_exec(
    own: &SourceContracts,
    contract: &str,
    sources: &Vec<SourceContracts>,
    bases: &Vec<(String, usize)>,
    fname: &str,
) -> (r: Vec<ResolvedSymbol>)
    ensures
        syms_view(r@) == found_symbols(*own, contract@, sources@, bases_view(bases@), fname@),
{
    let mut acc: Vec<ResolvedSymbol> = Vec::new();
    proof {
        assert(syms_view(acc@) =~= Seq::<(Seq<char>, Seq<char>, usize, usize, Seq<char>)>::empty());
    }
    add_contracts_exec(&mut acc, own, contract, fname, true);
    let ghost a1 = syms_view(acc@);
    let mut k: usize = 0;
    while k < bases.len()
        invariant
            k <= bases@.len(),
            syms_view(acc@) == add_bases(a1, sources@, bases_view(bases@), fname@, k as int),
        decreases bases@.len() - k,
    {
        let j = bases[k].1;
        if j < sources.len() {
            add_contracts_exec(&mut acc, &sources[j], bases[k].0.as_str(), fname, false);
        }
        k = k + 1;
    }
    acc
}

/// Append the names listed by the contracts named `contract` in `sc`.
fn source_names_exec(out: &mut Vec<String>, sc: &SourceContracts, contract: &str, own: bool)
    ensures
        texts_view(final(out)@) == texts_view(old(out)@) + source_names(*sc, contract@, own, sc.contracts@.len() as int),
{
    let ghost o0 = texts_view(out@);
    let cv = chars_of(contract);
    let mut k: usize = 0;
    while k < sc.contracts.len()
        invariant
            cv@ == contract@,
            k <= sc.contracts@.len(),
            texts_view(out@) == o0 + source_names(*sc, contract@, own, k as int),
        decreases sc.contracts@.len() - k,
    {
        let c = &sc.contracts[k];
        let nv = chars_of(c.name.as_str());
        let ghost before = texts_view(out@);
        if chars_eq(&nv, &cv) {
            let mut j: usize = 0;
            while j < c.members.len()
                invariant
                    j <= c.members@.len(),
                    texts_view(out@) == before + listed_names(*c, own, j as int),
                decreases c.members@.len() - j,
            {
                let m = &c.members[j];
                if member_listed_exec(c, m, own) {
                    let n = member_name_exec(m);
                    let ghost b2 = out@;
                    out.push(n);
                    assert(texts_view(out@) =~= texts_view(b2).push(n@));
                }
                j = j + 1;
            }
        }
        assert(texts_view(out@) =~= o0 + source_names(*sc, contract@, own, k + 1));
        k = k + 1;
    }
}

/// Every function name a contract offers, sorted, without repeats.
fn available_names_exec(
    own: &SourceContracts,
    contract: &str,
    sources: &Vec<SourceContracts>,
    bases: &Vec<(String, usize)>,
) -> (r: Vec<String>)
    ensures
        texts_view(r@) == available_names(*own, contract@, sources@, bases_view(bases@)),
{
    let mut all: Vec<String> = Vec::new();
    source_names_exec(&mut all, own, contract, true);
    let ghost a1 = texts_view(all@);
    assert(a1 =~= source_names(*own, contract@, true, own.contracts@.len() as int));
    let mut k: usize = 0;
    while k < bases.len()
        invariant
            k <= bases@.len(),
            texts_view(all@) == a1 + base_names(sources@, bases_view(bases@), k as int),
        decreases bases@.len() - k,
    {
        let j = bases[k].1;
        if j < sources.len() {
            source_names_exec(&mut all, &sources[j], bases[k].0.as_str(), false);
        }
        assert(texts_view(all@) =~= a1 + base_names(sources@, bases_view(bases@), k + 1));
        k = k + 1;
    }
    let sorted = sort_texts(&all);
    dedup_texts(&sorted)
}

/// The inheritance order of a query.
fn order_of_exec(contract: &str, bases: &Vec<(String, usize)>) -> (r: Vec<String>)
    ensures
        texts_view(r@) == order_of(contract@, bases_view(bases@), bases@.len() as int),
{
    let mut r: Vec<String> = Vec::new();
    r.push(String::from_str(contract));
    assert(texts_view(r@) =~= seq![contract@]);
    let mut k: usize = 0;
    while k < bases.len()
        invariant
            k <= bases@.len(),
            texts_view(r@) == order_of(contract@, bases_view(bases@), k as int),
        decreases bases@.len() - k,
    {
        let bv = chars_of(bases[k].0.as_str());
        let mut found = false;
        let mut j: usize = 0;
        while j < r.len()
            invariant
                k < bases@.len(),
                bv@ == bases@[k as int].0@,
                j <= r@.len(),
                found == exists|q: int| 0 <= q < j && texts_view(r@)[q] == bv@,
            decreases r@.len() - j,
        {
            let rv = chars_of(r[j].as_str());
            let ghost fj = found;
            assert(texts_view(r@)[j as int] == rv@);
            if chars_eq(&rv, &bv) {
                found = true;
            }
            proof {
                if !found {
                    assert forall|q: int| 0 <= q < j + 1 implies texts_view(r@)[q] != bv@ by {
                        if q < j {
                            assert(!fj);
                        }
                    }
                }
            }
            j = j + 1;
        }
        proof {
            if found {
                let q = choose|q: int| 0 <= q < r@.len() && texts_view(r@)[q] == bv@;
                assert(texts_view(r@).contains(bv@));
            } else {
                assert(!texts_view(r@).contains(bv@));
            }
        }
        if !found {
            let ghost before = r@;
            r.push(bases[k].0.clone());
            assert(texts_view(r@) =~= texts_view(before).push(bv@));
        }
        k = k + 1;
    }
    r
}


/// Position of `name` in an order (`usize::MAX` when absent).
fn pos_in_exec(order: &Vec<String>, name: &str) -> (r: usize)
    ensures
        r as int == pos_in(texts_view(order@), name@),
{
    let ghost ov = texts_view(order@);
    let nv = chars_of(name);
    let mut i: usize = 0;
    while i < order.len()
        invariant
            ov == texts_view(order@),
            nv@ == name@,
            i <= ov.len(),
            forall|j: int| 0 <= j < i ==> ov[j] != name@,
        decreases ov.len() - i,
    {
        let x = chars_of(order[i].as_str());
        if chars_eq(&x, &nv) {
            proof {
                assert(ov[i as int] == name@);
                assert(ov.contains(name@));
                let c = choose|c: int| 0 <= c < ov.len() && ov[c] == name@ && forall|j: int| 0 <= j < c ==> ov[j] != name@;
                assert(0 <= i < ov.len() && ov[i as int] == name@ && forall|j: int| 0 <= j < i ==> ov[j] != name@);
                if c < i {
                    assert(ov[c] != name@);
                }
                if c > i {
                    assert(ov[i as int] != name@);
                }
            }
            return i;
        }
        i = i + 1;
    }
    proof {
        if ov.contains(name@) {
            let q = choose|q: int| 0 <= q < ov.len() && ov[q] == name@;
            assert(ov[q] != name@);
        }
    }
    usize::MAX
}

/// The rank of a symbol.
fn sym_rank_exec(s: &ResolvedSymbol, order: &Vec<String>) -> (r: (usize, usize))
    ensures
        (r.0 as int, r.1 as int) == sym_rank(sym_view(*s), texts_view(order@)),
{
    let c = before_dot_exec(s.symbol.as_str());
    (pos_in_exec(order, c.as_str()), s.offset)
}

/// The position of the symbol of least rank, when no other has its rank.
fn unique_best_exec(ss: &Vec<ResolvedSymbol>, order: &Vec<String>) -> (r: Option<usize>)
    ensures
        match r {
            Some(i) => is_unique_best(syms_view(ss@), texts_view(order@), i as int),
            None => !exists|i: int| is_unique_best(syms_view(ss@), texts_view(order@), i),
        },
{
    let ghost sv = syms_view(ss@);
    let ghost ov = texts_view(order@);
    if ss.len() == 0 {
        return None;
    }
    let mut best: usize = 0;
    let mut br = sym_rank_exec(&ss[0], order);
    let mut i: usize = 1;
    while i < ss.len()
        invariant
            sv == syms_view(ss@),
            ov == texts_view(order@),
            1 <= i <= ss@.len(),
            best < i,
            (br.0 as int, br.1 as int) == sym_rank(sv[best as int], ov),
            forall|j: int| 0 <= j < i ==> rank_le(sym_rank(sv[best as int], ov), #[trigger] sym_rank(sv[j], ov)),
        decreases ss@.len() - i,
    {
        let r = sym_rank_exec(&ss[i], order);
        assert(sv[i as int] == sym_view(ss@[i as int]));
        if r.0 < br.0 || (r.0 == br.0 && r.1 < br.1) {
            best = i;
            br = r;
        }
        i = i + 1;
    }
    let mut count: usize = 0;
    let mut other: Option<usize> = None;
    let mut j: usize = 0;
    while j < ss.len()
        invariant
            sv == syms_view(ss@),
            ov == texts_view(order@),
            j <= ss@.len(),
            best < ss@.len(),
            (br.0 as int, br.1 as int) == sym_rank(sv[best as int], ov),
            match other {
                Some(o) => o < ss@.len() && o != best && sym_rank(sv[o as int], ov) == sym_rank(sv[best as int], ov),
                None => forall|q: int| 0 <= q < j && q != best ==> #[trigger] sym_rank(sv[q], ov) != sym_rank(sv[best as int], ov),
            },
        decreases ss@.len() - j,
    {
        if j != best {
            let r = sym_rank_exec(&ss[j], order);
            assert(sv[j as int] == sym_view(ss@[j as int]));
            if r.0 == br.0 && r.1 == br.1 {
                other = Some(j);
            }
        }
        j = j + 1;
    }
    match other {
        None => Some(best),
        Some(o) => {
            proof {
                assert forall|c: int| !is_unique_best(sv, ov, c) by {
                    if is_unique_best(sv, ov, c) {
                        assert(rank_le(sym_rank(sv[c], ov), sym_rank(sv[best as int], ov)));
                        assert(rank_le(sym_rank(sv[best as int], ov), sym_rank(sv[c], ov)));
                        assert(sym_rank(sv[c], ov) == sym_rank(sv[best as int], ov));
                        if c == best {
                            assert(sym_rank(sv[o as int], ov) == sym_rank(sv[c], ov));
                        } else {
                            assert(sym_rank(sv[best as int], ov) != sym_rank(sv[c], ov));
                        }
                    }
                }
            }
            None
        },
    }
}

/// The symbols a parameterised query matches.
fn exact_matches_exec(ss: &Vec<ResolvedSymbol>, contract: &str, fname: &str) -> (r: Vec<ResolvedSymbol>)
    ensures
        syms_view(r@) == exact_matches(syms_view(ss@), contract@, fname@, ss@.len() as int),
{
    let ghost sv = syms_view(ss@);
    let mut t = String::from_str(contract);
    push_str(&mut t, ".");
    push_str(&mut t, fname);
    let tv = chars_of(t.as_str());
    let mut suffix = String::from_str(".");
    push_str(&mut suffix, fname);
    let xv = chars_of(suffix.as_str());
    let mut r: Vec<ResolvedSymbol> = Vec::new();
    let mut i: usize = 0;
    while i < ss.len()
        invariant
            sv == syms_view(ss@),
            tv@ == contract@ + "."@ + fname@,
            xv@ == "."@ + fname@,
            i <= ss@.len(),
            syms_view(r@) == exact_matches(sv, contract@, fname@, i as int),
        decreases ss@.len() - i,
    {
        let v = chars_of(ss[i].symbol.as_str());
        assert(sv[i as int] == sym_view(ss@[i as int]));
        if chars_eq(&v, &tv) || ends_with_exec(&v, &xv) {
            let c = copy_symbol(&ss[i]);
            let ghost before = r@;
            r.push(c);
            assert(syms_view(r@) =~= syms_view(before).push(sym_view(c)));
        }
        i = i + 1;
    }
    r
}

/// Whether all symbols have the same signature after the contract name.
fn same_signature_exec(ss: &Vec<ResolvedSymbol>) -> (b: bool)
    ensures
        b == same_signature(syms_view(ss@)),
{
    let ghost sv = syms_view(ss@);
    if ss.len() == 0 {
        return true;
    }
    let first = after_dot_exec(ss[0].symbol.as_str());
    let fv = chars_of(first.as_str());
    assert(sv[0] == sym_view(ss@[0]));
    let mut i: usize = 1;
    while i < ss.len()
        invariant
            sv == syms_view(ss@),
            ss@.len() > 0,
            fv@ == after_dot(sv[0].0),
            1 <= i <= ss@.len(),
            forall|j: int| 0 <= j < i ==> after_dot(#[trigger] sv[j].0) == fv@,
        decreases ss@.len() - i,
    {
        let a = after_dot_exec(ss[i].symbol.as_str());
        let av = chars_of(a.as_str());
        assert(sv[i as int] == sym_view(ss@[i as int]));
        if !chars_eq(&av, &fv) {
            assert(!same_signature(sv)) by {
                assert(after_dot(sv[i as int].0) != after_dot(sv[0].0));
            }
            return false;
        }
        i = i + 1;
    }
    true
}

/// The suggestion block for symbols `ss`, sorted.
fn suggestion_block_exec(ss: &Vec<ResolvedSymbol>, contract: &str) -> (r: String)
    ensures
        r@ == suggestion_block(syms_view(ss@), contract@),
{
    let mut texts: Vec<String> = Vec::new();
    let mut i: usize = 0;
    while i < ss.len()
        invariant
            i <= ss@.len(),
            texts_view(texts@) == symbol_texts(syms_view(ss@)).take(i as int),
        decreases ss@.len() - i,
    {
        let ghost before = texts@;
        let t = ss[i].symbol.clone();
        texts.push(t);
        assert(symbol_texts(syms_view(ss@))[i as int] == t@);
        assert(texts_view(texts@) =~= texts_view(before).push(t@));
        assert(texts_view(texts@) =~= symbol_texts(syms_view(ss@)).take(i + 1));
        i = i + 1;
    }
    assert(symbol_texts(syms_view(ss@)).take(ss@.len() as int) =~= symbol_texts(syms_view(ss@)));
    let sorted = sort_texts(&texts);
    let ghost st = texts_view(sorted@);
    let mut r = String::new();
    let mut k: usize = 0;
    while k < sorted.len()
        invariant
            st == texts_view(sorted@),
            k <= st.len(),
            r@ == suggestions(st, contract@, k as int),
        decreases st.len() - k,
    {
        push_str(&mut r, "\nsolray inspect function-source ");
        push_str(&mut r, contract);
        push_str(&mut r, " \"");
        let a = after_dot_exec(sorted[k].as_str());
        push_str(&mut r, a.as_str());
        push_str(&mut r, "\"");
        assert(r@ =~= suggestions(st, contract@, k + 1));
        k = k + 1;
    }
    push_str(&mut r, "\n");
    r
}

/// The message for several matching declarations.
fn ambiguous_message_exec(ss: &Vec<ResolvedSymbol>, contract: &str, fname: &str) -> (r: String)
    ensures
        r@ == ambiguous_message(syms_view(ss@), contract@, fname@),
{
    let mut r = String::from_str("found ");
    let n = decimal_exec(ss.len());
    push_str(&mut r, n.as_str());
    push_str(&mut r, " \"");
    push_str(&mut r, fname);
    push_str(&mut r, "\"\n\nSelect one of the following:\n");
    let b = suggestion_block_exec(ss, contract);
    push_str(&mut r, b.as_str());
    r
}

/// Find the declaration a function-source query names in contract
/// `contract_name`: `own` is the source unit of the contract's artifact and
/// `bases` its base contracts (depth first), each with the position of its
/// artifact's source unit among `sources`. A
/// parameterised name (`f(uint256)`) is matched by signature; inherited
/// overrides resolve to the most-derived declaration.
pub fn find_function(
    own: &SourceContracts,
    contract_name: &str,
    function_name: &str,
    sources: &Vec<SourceContracts>,
    bases: &Vec<(String, usize)>,
) -> (r: Result<ResolvedSymbol, String>)
    ensures
        match select_spec(*own, contract_name@, sources@, bases_view(bases@), function_name@) {
            Ok(s) => r matches Ok(x) && sym_view(x) == s,
            Err(e) => r matches Err(m) && m@ == e,
        },
{
    let fv = chars_of(function_name);
    let paren = chars_of("(");
    let found = find_exec(&fv, &paren);
    let is_exact = found.is_some();
    let base_name = match found {
        Some(pos) => string_of_range(&fv, 0, pos),
        None => String::from_str(function_name),
    };
    assert(base_name@ == before_first(function_name@, "("@));
    let fs = found_symbols_exec(own, contract_name, sources, bases, base_name.as_str());
    let order = order_of_exec(contract_name, bases);
    let ghost sv = syms_view(fs@);
    if fs.len() == 0 {
        let names = available_names_exec(own, contract_name, sources, bases);
        let list = join_texts(&names, ", ");
        let mut msg = String::from_str("\"");
        push_str(&mut msg, function_name);
        push_str(&mut msg, "\" not found in \"");
        push_str(&mut msg, contract_name);
        push_str(&mut msg, "\".\n\nAvailable functions in \"");
        push_str(&mut msg, contract_name);
        push_str(&mut msg, "\": ");
        push_str(&mut msg, list.as_str());
        return Err(msg);
    }
    if is_exact {
        let ms = exact_matches_exec(&fs, contract_name, function_name);
        if ms.len() == 0 {
            let mut msg = String::from_str("\"");
            push_str(&mut msg, function_name);
            push_str(&mut msg, "\" not found in \"");
            push_str(&mut msg, contract_name);
            push_str(&mut msg, "\".\n\nSelect one of the following:\n");
            let b = suggestion_block_exec(&fs, contract_name);
            push_str(&mut msg, b.as_str());
            return Err(msg);
        }
        if ms.len() == 1 {
            return Ok(copy_symbol(&ms[0]));
        }
        match unique_best_exec(&ms, &order) {
            Some(i) => {
                proof {
                    let mv = syms_view(ms@);
                    let c = choose|c: int| is_unique_best(mv, texts_view(order@), c);
                    if c != i {
                        assert(sym_rank(mv[c], texts_view(order@)) != sym_rank(mv[i as int], texts_view(order@)));
                        assert(rank_le(sym_rank(mv[c], texts_view(order@)), sym_rank(mv[i as int], texts_view(order@))));
                        assert(rank_le(sym_rank(mv[i as int], texts_view(order@)), sym_rank(mv[c], texts_view(order@))));
                    }
                }
                Ok(copy_symbol(&ms[i]))
            },
            None => Err(ambiguous_message_exec(&ms, contract_name, function_name)),
        }
    } else {
        if fs.len() == 1 {
            return Ok(copy_symbol(&fs[0]));
        }
        if same_signature_exec(&fs) {
            match unique_best_exec(&fs, &order) {
                Some(i) => {
                    proof {
                        let c = choose|c: int| is_unique_best(sv, texts_view(order@), c);
                        if c != i {
                            assert(sym_rank(sv[c], texts_view(order@)) != sym_rank(sv[i as int], texts_view(order@)));
                            assert(rank_le(sym_rank(sv[c], texts_view(order@)), sym_rank(sv[i as int], texts_view(order@))));
                            assert(rank_le(sym_rank(sv[i as int], texts_view(order@)), sym_rank(sv[c], texts_view(order@))));
                        }
                    }
                    return Ok(copy_symbol(&fs[i]));
                },
                None => {},
            }
        }
        Err(ambiguous_message_exec(&fs, contract_name, function_name))
    }
}


// ---------------------------------------------------------------------------
// The base contracts of a query
// ---------------------------------------------------------------------------

/// The base contracts of contract `name` (declared in artifact `a`), depth
/// first, each found through the symbol index within the same build, with
/// its artifact; `vis` are the contracts already visited. A base reached
/// twice is listed twice (its second visit stops there).
pub open spec fn bases_spec(p: Program, a: int, name: Seq<char>, vis: Seq<Seq<char>>) -> (Seq<Seq<char>>, Seq<(Seq<char>, usize)>)
    decreases inh_measure(p, vis, name), 1int, 0int,
{
    if vis.contains(name) {
        (vis, Seq::empty())
    } else {
        let vis1 = vis.push(name);
        if 0 <= a < p.artifacts@.len() {
            let art = p.artifacts@[a];
            match find_contract(art.contracts@, name, 0) {
                Some(ci) => bases_list(p, art.build_info@, art.contracts@[ci].bases@, 0, vis1, inh_measure(p, vis, name)),
                None => (vis1, Seq::empty()),
            }
        } else {
            (vis1, Seq::empty())
        }
    }
}

/// The bases reached through `bases[i..]` (found within build `b`).
pub open spec fn bases_list(
    p: Program,
    b: Seq<char>,
    bases: Seq<Option<i64>>,
    i: int,
    vis: Seq<Seq<char>>,
    bound: nat,
) -> (Seq<Seq<char>>, Seq<(Seq<char>, usize)>)
    decreases bound, 0int, bases.len() - i,
{
    if i < 0 || i >= bases.len() {
        (vis, Seq::empty())
    } else {
        let (vis2, out2) = bases_one(p, b, bases[i], vis, bound);
        let (vis3, out3) = bases_list(p, b, bases, i + 1, vis2, bound);
        (vis3, out2 + out3)
    }
}

/// The bases reached through one base reference: the base itself, when the
/// symbol index knows it in the same build, then its own bases.
pub open spec fn bases_one(p: Program, b: Seq<char>, base: Option<i64>, vis: Seq<Seq<char>>, bound: nat) -> (Seq<Seq<char>>, Seq<(Seq<char>, usize)>)
    decreases bound, 0int, 0int,
{
    match base {
        None => (vis, Seq::empty()),
        Some(id) => match find_symbol_in(p.symbols@, b, id, 0) {
            None => (vis, Seq::empty()),
            Some(k) => {
                let e = p.symbols@[k];
                if (e.artifact as int) < p.artifacts@.len() && p.artifacts@[e.artifact as int].build_info@ == b {
                    if inh_measure(p, vis, e.name@) < bound {
                        let (vis2, out2) = bases_spec(p, e.artifact as int, e.name@, vis);
                        (vis2, seq![(e.name@, e.artifact)] + out2)
                    } else {
                        (vis, seq![(e.name@, e.artifact)])
                    }
                } else {
                    (vis, Seq::empty())
                }
            },
        },
    }
}

fn bases_rec(p: &Program, a: usize, name: &str, vis: &mut Vec<String>, out: &mut Vec<(String, usize)>)
    ensures
        (names_view(final(vis)@), bases_view(final(out)@)) == ({
            let (v, o) = bases_spec(*p, a as int, name@, names_view(old(vis)@));
            (v, bases_view(old(out)@) + o)
        }),
        extends_names(names_view(old(vis)@), names_view(final(vis)@)),
    decreases inh_measure(*p, names_view(old(vis)@), name@), 1int, 0int,
{
    let ghost vis0 = names_view(vis@);
    let ghost out0 = bases_view(out@);
    if names_contain(vis, name) {
        assert(names_view(vis@).subrange(0, vis0.len() as int) == vis0);
        assert(out0 + Seq::<(Seq<char>, usize)>::empty() =~= out0);
        return;
    }
    vis.push(String::from_str(name));
    proof {
        assert(names_view(vis@) =~= vis0.push(name@));
        assert(out0 + Seq::<(Seq<char>, usize)>::empty() =~= out0);
    }
    if a >= p.artifacts.len() {
        assert(names_view(vis@).subrange(0, vis0.len() as int) =~= vis0);
        return;
    }
    let ci = match find_contract_exec(&p.artifacts[a].contracts, name) {
        Some(ci) => ci,
        None => {
            assert(names_view(vis@).subrange(0, vis0.len() as int) =~= vis0);
            return;
        },
    };
    let b = &p.artifacts[a].build_info;
    let bases = &p.artifacts[a].contracts[ci].bases;
    let ghost bound = inh_measure(*p, vis0, name@);
    let ghost total = bases_list(*p, b@, bases@, 0, names_view(vis@), bound);
    assert(names_view(vis@).subrange(0, names_view(vis@).len() as int) == names_view(vis@));
    let mut i: usize = 0;
    while i < bases.len()
        invariant
            a < p.artifacts@.len(),
            ci < p.artifacts@[a as int].contracts@.len(),
            b == &p.artifacts@[a as int].build_info,
            bases == &p.artifacts@[a as int].contracts@[ci as int].bases,
            bound == inh_measure(*p, vis0, name@),
            !vis0.contains(name@),
            vis0 == names_view(old(vis)@),
            out0 == bases_view(old(out)@),
            i <= bases@.len(),
            extends_names(vis0.push(name@), names_view(vis@)),
            total == bases_list(*p, b@, bases@, 0, vis0.push(name@), bound),
            ({
                let (v, o) = bases_list(*p, b@, bases@, i as int, names_view(vis@), bound);
                total.0 == v && out0 + total.1 == bases_view(out@) + o
            }),
        decreases bases@.len() - i,
    {
        let ghost vis_i = names_view(vis@);
        let ghost out_i = bases_view(out@);
        let ghost step = bases_one(*p, b@, bases@[i as int], vis_i, bound);
        match bases[i] {
            None => {},
            Some(id) => match find_symbol_in_exec(p, b.as_str(), id) {
                None => {},
                Some(k) => {
                    let e = &p.symbols[k];
                    if e.artifact < p.artifacts.len() {
                        let bv = chars_of(b.as_str());
                        let ev = chars_of(p.artifacts[e.artifact].build_info.as_str());
                        if chars_eq(&ev, &bv) {
                            out.push((e.name.clone(), e.artifact));
                            proof {
                                assert(bases_view(out@) =~= out_i + seq![(e.name@, e.artifact)]);
                                assert(symbol_names(*p)[k as int] == e.name@);
                                lemma_extends_names_contains(vis0.push(name@), vis_i);
                                assert(vis_i.contains(name@)) by {
                                    assert(vis0.push(name@)[vis0.len() as int] == name@);
                                    assert(vis0.push(name@).contains(name@));
                                }
                                assert(forall|y: Seq<char>| vis0.contains(y) ==> vis_i.contains(y)) by {
                                    assert forall|y: Seq<char>| vis0.contains(y) implies vis_i.contains(y) by {
                                        let j = choose|j: int| 0 <= j < vis0.len() && vis0[j] == y;
                                        assert(vis0.push(name@)[j] == y);
                                        assert(vis0.push(name@).contains(y));
                                    }
                                }
                                lemma_names_unvisited_mono(symbol_names(*p), vis0, vis_i, name@);
                                assert(inh_measure(*p, vis_i, e.name@) < bound);
                            }
                            let ghost out_m = bases_view(out@);
                            bases_rec(p, e.artifact, e.name.as_str(), vis, out);
                            proof {
                                let (v2, o2) = bases_spec(*p, e.artifact as int, e.name@, vis_i);
                                assert(step == (v2, seq![(e.name@, e.artifact)] + o2));
                                assert(bases_view(out@) =~= out_i + step.1);
                                assert(names_view(vis@).subrange(0, vis0.len() as int + 1) =~= names_view(vis@).subrange(0, vis_i.len() as int).subrange(0, vis0.len() as int + 1));
                            }
                        }
                    }
                },
            },
        }
        proof {
            assert(step.0 == names_view(vis@));
            assert(bases_view(out@) =~= out_i + step.1);
            let (v3, o3) = bases_list(*p, b@, bases@, i + 1, step.0, bound);
            assert(bases_list(*p, b@, bases@, i as int, vis_i, bound) == (v3, step.1 + o3));
            assert(out_i + (step.1 + o3) =~= (out_i + step.1) + o3);
        }
        i = i + 1;
    }
    proof {
        assert(names_view(vis@).subrange(0, vis0.len() as int) =~= names_view(vis@).subrange(0, vis0.len() as int + 1).subrange(0, vis0.len() as int));
        assert(vis0.push(name@).subrange(0, vis0.len() as int) =~= vis0);
        assert(bases_view(out@) + Seq::<(Seq<char>, usize)>::empty() =~= bases_view(out@));
    }
}

/// The base contracts of contract `name` (declared in artifact `a`), depth
/// first, with their artifacts.
pub fn inherited_contracts(p: &Program, a: usize, name: &str) -> (r: Vec<(String, usize)>)
    ensures
        bases_view(r@) == bases_spec(*p, a as int, name@, Seq::empty()).1,
{
    let mut vis: Vec<String> = Vec::new();
    let mut out: Vec<(String, usize)> = Vec::new();
    proof {
        assert(names_view(vis@) =~= Seq::<Seq<char>>::empty());
        assert(bases_view(out@) =~= Seq::<(Seq<char>, usize)>::empty());
    }
    bases_rec(p, a, name, &mut vis, &mut out);
    assert(bases_view(out@) =~= Seq::<(Seq<char>, usize)>::empty() + bases_spec(*p, a as int, name@, Seq::empty()).1);
    out
}


/// Find the declaration a function-source query names in contract
/// `contract_name` of artifact `a`, with the bases the symbol index gives;
/// `sources` are the source units of the program's artifacts.
pub fn find_root_function(
    p: &Program,
    sources: &Vec<SourceContracts>,
    a: usize,
    contract_name: &str,
    function_name: &str,
) -> (r: Result<ResolvedSymbol, String>)
    requires
        a < sources@.len(),
    ensures
        match select_spec(
            sources@[a as int],
            contract_name@,
            sources@,
            bases_spec(*p, a as int, contract_name@, Seq::empty()).1,
            function_name@,
        ) {
            Ok(s) => r matches Ok(x) && sym_view(x) == s,
            Err(e) => r matches Err(m) && m@ == e,
        },
{
    let bases = inherited_contracts(p, a, contract_name);
    find_function(&sources[a], contract_name, function_name, sources, &bases)
}

/// One suggestion line per candidate, in path order.
pub open spec fn candidate_lines(es: Seq<ArtifactEntry>, o: Seq<usize>, contract: Seq<char>, function: Seq<char>, k: int) -> Seq<char>
    decreases k,
{
    if k <= 0 || k > o.len() {
        Seq::empty()
    } else {
        candidate_lines(es, o, contract, function, k - 1) + "\nsolray inspect function-source "@
            + qualified_name_spec(es[o[k - 1] as int], contract) + " \""@ + function + "\""@
    }
}

/// Which artifact a function-source query for contract `contract` reads,
/// among the artifacts that define the name: the only one; an error when
/// there is none or several.
pub open spec fn choose_artifact_spec(es: Seq<ArtifactEntry>, contract: Seq<char>, function: Seq<char>) -> Result<int, Seq<char>> {
    if es.len() == 0 {
        Err("\""@ + contract + "\" not found."@)
    } else if es.len() > 1 {
        let o = sorted_order(path_keys(es), true);
        Err("found "@ + decimal(es.len()) + " \""@ + contract + "\"\n\nSelect one of the following:\n"@
            + candidate_lines(es, o, contract, function, o.len() as int) + "\n"@)
    } else {
        Ok(0)
    }
}

/// Choose the artifact of a function-source query among `candidates`.
pub fn choose_artifact(candidates: &Vec<ArtifactEntry>, contract: &str, function_name: &str) -> (r: Result<usize, String>)
    ensures
        match choose_artifact_spec(candidates@, contract@, function_name@) {
            Ok(i) => r matches Ok(j) && j as int == i,
            Err(e) => r matches Err(m) && m@ == e,
        },
{
    if candidates.len() == 0 {
        let mut msg = String::from_str("\"");
        push_str(&mut msg, contract);
        push_str(&mut msg, "\" not found.");
        return Err(msg);
    }
    if candidates.len() == 1 {
        return Ok(0);
    }
    let mut keys: Vec<Vec<char>> = Vec::new();
    let mut i: usize = 0;
    while i < candidates.len()
        invariant
            i <= candidates@.len(),
            keys@.len() == i,
            forall|j: int| 0 <= j < i ==> (#[trigger] keys@[j])@ == path_keys(candidates@)[j],
        decreases candidates@.len() - i,
    {
        keys.push(chars_of(candidates[i].path.as_str()));
        i = i + 1;
    }
    assert(keys@.map_values(|k: Vec<char>| k@) =~= path_keys(candidates@));
    let order = stable_order(&keys, true);
    let ghost o = order@;
    let mut msg = String::from_str("found ");
    let n = decimal_exec(candidates.len());
    push_str(&mut msg, n.as_str());
    push_str(&mut msg, " \"");
    push_str(&mut msg, contract);
    push_str(&mut msg, "\"\n\nSelect one of the following:\n");
    let ghost head = msg@;
    let mut k: usize = 0;
    while k < order.len()
        invariant
            o == order@,
            is_stable_order(path_keys(candidates@), o, true),
            o.len() == candidates@.len(),
            k <= o.len(),
            msg@ == head + candidate_lines(candidates@, o, contract@, function_name@, k as int),
        decreases o.len() - k,
    {
        let q = qualified_name(&candidates[order[k]], contract);
        push_str(&mut msg, "\nsolray inspect function-source ");
        push_str(&mut msg, q.as_str());
        push_str(&mut msg, " \"");
        push_str(&mut msg, function_name);
        push_str(&mut msg, "\"");
        assert(msg@ =~= head + candidate_lines(candidates@, o, contract@, function_name@, k + 1));
        k = k + 1;
    }
    push_str(&mut msg, "\n");
    Err(msg)
}

} // verus!
