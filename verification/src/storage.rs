//! Storage layouts: the slots an artifact's `storageLayout` lists, shown
//! as an aligned table or as a numbered summary, and the check that an
//! empty layout is not hiding the storage a contract declares.
use vstd::prelude::*;
use crate::strings::{byte_len, chars_eq, chars_of, decimal, push_str, utf8_width, utf8_width_exec};
use vstd::seq_lib::seq_to_set_is_finite;

verus! {

/// A single storage entry.
#[derive(Debug)]
pub struct StorageEntry {
    /// The variable's label.
    pub label: String,
    /// The storage slot number.
    pub slot: String,
    /// The byte offset within the slot.
    pub offset: u64,
    /// The key of the entry's type among the layout's types.
    pub type_key: String,
}

/// A storage type definition.
#[derive(Debug)]
pub struct StorageType {
    /// The human-readable type label.
    pub label: String,
}

/// The storage layout of an artifact: its entries, and its types by key.
#[derive(Debug)]
pub struct StorageLayout {
    pub storage: Vec<StorageEntry>,
    pub types: Vec<(String, StorageType)>,
}

/// The output of a storage layout inspection.
#[derive(Debug)]
pub struct StorageLayoutInspectorOutput {
    pub storage_layout: StorageLayout,
}

/// The label of the type with key `key` (the first listed), else the key.
pub open spec fn type_label(types: Seq<(String, StorageType)>, key: Seq<char>) -> Seq<char>
    decreases types.len(),
{
    if types.len() == 0 {
        key
    } else if types[0].0@ == key {
        types[0].1.label@
    } else {
        type_label(types.drop_first(), key)
    }
}

/// The widest slot text, in bytes.
pub open spec fn slot_width(es: Seq<StorageEntry>) -> nat
    decreases es.len(),
{
    if es.len() == 0 {
        0
    } else {
        let w = slot_width(es.drop_last());
        let b = byte_len(es.last().slot@);
        if b > w {
            b
        } else {
            w
        }
    }
}

pub open spec fn spaces(n: nat) -> Seq<char> {
    Seq::new(n, |i: int| ' ')
}

/// `s` right-aligned in a field of `width` characters.
pub open spec fn padded(s: Seq<char>, width: nat) -> Seq<char> {
    if width > s.len() {
        spaces((width - s.len()) as nat) + s
    } else {
        s
    }
}

/// One row of the table: `slot <slot> offset <offset> <label> <type>`.
pub open spec fn table_row(e: StorageEntry, types: Seq<(String, StorageType)>, width: nat) -> Seq<char> {
    "slot "@ + padded(e.slot@, width) + " offset "@ + decimal(e.offset as nat) + " "@ + e.label@ + " "@
        + type_label(types, e.type_key@) + "\n"@
}

pub open spec fn table_rows(es: Seq<StorageEntry>, types: Seq<(String, StorageType)>, width: nat, i: int) -> Seq<char>
    decreases es.len() - i,
{
    if i < 0 || i >= es.len() {
        Seq::empty()
    } else {
        table_row(es[i], types, width) + table_rows(es, types, width, i + 1)
    }
}

/// The table of a layout, slots right-aligned to the widest; a note when
/// there is no slot.
pub open spec fn layout_table(l: StorageLayout) -> Seq<char> {
    if l.storage@.len() == 0 {
        "No storage slots found.\n"@
    } else {
        table_rows(l.storage@, l.types@, slot_width(l.storage@), 0)
    }
}

/// Every slot text's length in bytes fits in a `usize` (as that of a
/// string in memory does).
pub open spec fn slots_fit(es: Seq<StorageEntry>) -> bool {
    forall|i: int| 0 <= i < es.len() ==> byte_len((#[trigger] es[i]).slot@) <= usize::MAX
}

fn same_text(a: &str, b: &str) -> (r: bool)
    ensures
        r == (a@ == b@),
{
    chars_eq(&chars_of(a), &chars_of(b))
}

/// The label of a type (see [`type_label`]).
pub fn type_label_exec(types: &Vec<(String, StorageType)>, key: &String) -> (r: String)
    ensures
        r@ == type_label(types@, key@),
{
    let mut i: usize = 0;
    assert(types@.subrange(0, types@.len() as int) =~= types@);
    while i < types.len()
        invariant
            i <= types@.len(),
            type_label(types@, key@) == type_label(types@.subrange(i as int, types@.len() as int), key@),
        decreases types@.len() - i,
    {
        let ghost rest = types@.subrange(i as int, types@.len() as int);
        assert(rest[0] == types@[i as int]);
        assert(rest.drop_first() =~= types@.subrange(i + 1, types@.len() as int));
        if same_text(types[i].0.as_str(), key.as_str()) {
            return types[i].1.label.clone();
        }
        i = i + 1;
    }
    key.clone()
}

fn byte_len_exec(s: &String) -> (n: usize)
    requires
        byte_len(s@) <= usize::MAX,
    ensures
        n == byte_len(s@),
{
    let v = chars_of(s.as_str());
    let mut n: usize = 0;
    let mut i: usize = 0;
    while i < v.len()
        invariant
            i <= v@.len(),
            v@ == s@,
            byte_len(s@) <= usize::MAX,
            n == byte_len(v@.take(i as int)),
        decreases v@.len() - i,
    {
        proof {
            crate::strings::lemma_byte_len_push(v@.take(i as int), v@[i as int]);
            assert(v@.take(i as int).push(v@[i as int]) =~= v@.take(i + 1));
            crate::strings::lemma_byte_len_mono(v@, i + 1, v@.len() as int);
            assert(v@.take(v@.len() as int) =~= v@);
        }
        n = n + utf8_width_exec(v[i]);
        i = i + 1;
    }
    assert(v@.take(v@.len() as int) =~= v@);
    n
}

fn slot_width_exec(es: &Vec<StorageEntry>) -> (w: usize)
    requires
        slots_fit(es@),
    ensures
        w == slot_width(es@),
{
    let mut w: usize = 0;
    let mut i: usize = 0;
    assert(es@.subrange(0, 0) =~= Seq::<StorageEntry>::empty());
    while i < es.len()
        invariant
            i <= es@.len(),
            slots_fit(es@),
            w == slot_width(es@.subrange(0, i as int)),
        decreases es@.len() - i,
    {
        assert(es@.subrange(0, i + 1).drop_last() =~= es@.subrange(0, i as int));
        assert(es@.subrange(0, i + 1).last() == es@[i as int]);
        let b = byte_len_exec(&es[i].slot);
        if b > w {
            w = b;
        }
        i = i + 1;
    }
    assert(es@.subrange(0, es@.len() as int) =~= es@);
    w
}

fn decimal_u64(n: u64) -> (s: String)
    ensures
        s@ == decimal(n as nat),
    decreases n,
{
    if n < 10 {
        let mut s = String::new();
        crate::strings::push_char(&mut s, digit(n));
        s
    } else {
        let mut s = decimal_u64(n / 10);
        crate::strings::push_char(&mut s, digit(n % 10));
        s
    }
}

fn digit(d: u64) -> (c: char)
    requires
        d < 10,
    ensures
        c == crate::strings::digit_char(d as nat),
{
    let r = (d as u8 + 48u8) as char;
    assert(r == ((d as nat + 48) as char));
    r
}

fn push_spaces(s: &mut String, n: usize)
    ensures
        final(s)@ == old(s)@ + spaces(n as nat),
{
    let mut i: usize = 0;
    while i < n
        invariant
            i <= n,
            s@ == old(s)@ + spaces(i as nat),
        decreases n - i,
    {
        crate::strings::push_char(s, ' ');
        assert(spaces((i + 1) as nat) =~= spaces(i as nat).push(' '));
        i = i + 1;
    }
}

impl StorageLayoutInspectorOutput {
    /// Create the output for a parsed layout.
    pub fn new(storage_layout: StorageLayout) -> (r: Self)
        ensures
            r.storage_layout == storage_layout,
    {
        StorageLayoutInspectorOutput { storage_layout }
    }

    /// The layout as a table (see [`layout_table`]).
    pub fn to_string(&self) -> (s: String)
        requires
            slots_fit(self.storage_layout.storage@),
        ensures
            s@ == layout_table(self.storage_layout),
    {
        let es = &self.storage_layout.storage;
        if es.len() == 0 {
            return String::from_str("No storage slots found.\n");
        }
        let width = slot_width_exec(es);
        let ghost types = self.storage_layout.types@;
        let mut s = String::new();
        let mut i: usize = 0;
        while i < es.len()
            invariant
                es == &self.storage_layout.storage,
                types == self.storage_layout.types@,
                width == slot_width(es@),
                i <= es@.len(),
                s@ + table_rows(es@, types, width as nat, i as int) == table_rows(es@, types, width as nat, 0),
            decreases es@.len() - i,
        {
            let e = &es[i];
            let ghost before = s@;
            push_str(&mut s, "slot ");
            let slot_chars = chars_of(e.slot.as_str()).len();
            if width > slot_chars {
                push_spaces(&mut s, width - slot_chars);
            }
            push_str(&mut s, e.slot.as_str());
            push_str(&mut s, " offset ");
            let off = decimal_u64(e.offset);
            push_str(&mut s, off.as_str());
            push_str(&mut s, " ");
            push_str(&mut s, e.label.as_str());
            push_str(&mut s, " ");
            let ty = type_label_exec(&self.storage_layout.types, &e.type_key);
            push_str(&mut s, ty.as_str());
            push_str(&mut s, "\n");
            proof {
                let row = table_row(es@[i as int], types, width as nat);
                assert(s@ =~= before + row);
                assert(table_rows(es@, types, width as nat, i as int) == row + table_rows(es@, types, width as nat, i + 1));
                assert(before + (row + table_rows(es@, types, width as nat, i + 1)) =~= s@ + table_rows(
                    es@,
                    types,
                    width as nat,
                    i + 1,
                ));
            }
            i = i + 1;
        }
        assert(s@ + Seq::<char>::empty() =~= s@);
        s
    }
}

// ---------------------------------------------------------------------
// The numbered summary.

/// One entry of the summary: `label (slot s, offset o, type t)`.
pub open spec fn storage_text(e: StorageEntry, types: Seq<(String, StorageType)>) -> Seq<char> {
    e.label@ + " (slot "@ + e.slot@ + ", offset "@ + decimal(e.offset as nat) + ", type "@ + type_label(types, e.type_key@)
        + ")"@
}

/// Describe one storage entry (see [`storage_text`]).
pub fn format_storage(e: &StorageEntry, types: &Vec<(String, StorageType)>) -> (s: String)
    ensures
        s@ == storage_text(*e, types@),
{
    let mut s = e.label.clone();
    push_str(&mut s, " (slot ");
    push_str(&mut s, e.slot.as_str());
    push_str(&mut s, ", offset ");
    let off = decimal_u64(e.offset);
    push_str(&mut s, off.as_str());
    push_str(&mut s, ", type ");
    let ty = type_label_exec(types, &e.type_key);
    push_str(&mut s, ty.as_str());
    push_str(&mut s, ")");
    s
}

pub open spec fn summary_lines(v: Seq<Seq<char>>, i: int) -> Seq<char>
    decreases v.len() - i,
{
    if i < 0 || i >= v.len() {
        Seq::empty()
    } else {
        decimal((i + 1) as nat) + ". "@ + v[i] + "\n"@ + summary_lines(v, i + 1)
    }
}

/// The summary: the count, then each entry's text numbered from 1.
pub open spec fn summary_text(v: Seq<Seq<char>>) -> Seq<char> {
    "Found "@ + decimal(v.len()) + " storages\n\n"@ + summary_lines(v, 0)
}

/// Texts as values.
pub open spec fn texts_of(v: Seq<String>) -> Seq<Seq<char>> {
    v.map_values(|s: String| s@)
}

/// Number the described entries (see [`summary_text`]).
pub fn format_output(storages: &Vec<String>) -> (s: String)
    requires
        storages@.len() < usize::MAX,
    ensures
        s@ == summary_text(texts_of(storages@)),
{
    let ghost v = texts_of(storages@);
    let mut s = String::from_str("Found ");
    let n = crate::strings::decimal_exec(storages.len());
    push_str(&mut s, n.as_str());
    push_str(&mut s, " storages\n\n");
    let ghost head = s@;
    let mut i: usize = 0;
    while i < storages.len()
        invariant
            v == texts_of(storages@),
            storages@.len() < usize::MAX,
            i <= storages@.len(),
            s@ + summary_lines(v, i as int) == head + summary_lines(v, 0),
        decreases storages@.len() - i,
    {
        let ghost before = s@;
        let num = crate::strings::decimal_exec(i + 1);
        push_str(&mut s, num.as_str());
        push_str(&mut s, ". ");
        push_str(&mut s, storages[i].as_str());
        push_str(&mut s, "\n");
        proof {
            let piece = decimal((i + 1) as nat) + ". "@ + v[i as int] + "\n"@;
            assert(s@ =~= before + piece);
            assert(summary_lines(v, i as int) == piece + summary_lines(v, i + 1));
            assert(before + (piece + summary_lines(v, i + 1)) =~= s@ + summary_lines(v, i + 1));
        }
        i = i + 1;
    }
    assert(s@ + Seq::<char>::empty() =~= s@);
    s
}

/// The summary of a layout: each entry described, numbered.
pub fn layout_summary(l: &StorageLayout) -> (s: String)
    requires
        l.storage@.len() < usize::MAX,
    ensures
        s@ == summary_text(l.storage@.map_values(|e: StorageEntry| storage_text(e, l.types@))),
{
    let mut texts: Vec<String> = Vec::new();
    let mut i: usize = 0;
    while i < l.storage.len()
        invariant
            i <= l.storage@.len(),
            texts_of(texts@) == l.storage@.take(i as int).map_values(|e: StorageEntry| storage_text(e, l.types@)),
        decreases l.storage@.len() - i,
    {
        let t = format_storage(&l.storage[i], &l.types);
        let ghost before = texts_of(texts@);
        texts.push(t);
        assert(texts_of(texts@) =~= before.push(t@));
        assert(l.storage@.take(i + 1).map_values(|e: StorageEntry| storage_text(e, l.types@)) =~= l.storage@.take(
            i as int,
        ).map_values(|e: StorageEntry| storage_text(e, l.types@)).push(storage_text(l.storage@[i as int], l.types@)));
        i = i + 1;
    }
    assert(l.storage@.take(l.storage@.len() as int) =~= l.storage@);
    format_output(&texts)
}

// ---------------------------------------------------------------------
// Whether a contract declares storage.

/// A member of a contract, as far as storage is concerned.
#[derive(Debug)]
pub struct LayoutChild {
    pub node_type: String,
    pub state_variable: bool,
    pub constant: bool,
    pub mutability: String,
}

/// A top-level node of a source unit: its type, id and name, its members
/// and the declarations its base contracts name.
#[derive(Debug)]
pub struct LayoutNode {
    pub node_type: String,
    pub id: i64,
    pub name: Option<String>,
    pub children: Vec<LayoutChild>,
    pub bases: Vec<Option<i64>>,
}

/// A member that takes storage: a state variable neither constant nor
/// immutable.
pub open spec fn takes_storage(c: LayoutChild) -> bool {
    c.node_type@ == "VariableDeclaration"@ && c.state_variable && !c.constant && c.mutability@ != "immutable"@
}

pub open spec fn declares(n: LayoutNode) -> bool {
    exists|i: int| 0 <= i < n.children@.len() && takes_storage(#[trigger] n.children@[i])
}

/// The last node with the given id before position `i`.
pub open spec fn node_by_id(ns: Seq<LayoutNode>, id: i64, i: int) -> Option<int>
    decreases i,
{
    if i <= 0 || i > ns.len() {
        None
    } else if ns[i - 1].id == id {
        Some(i - 1)
    } else {
        node_by_id(ns, id, i - 1)
    }
}

/// The first contract definition with the given name from position `i` on.
pub open spec fn named_contract(ns: Seq<LayoutNode>, name: Seq<char>, i: int) -> Option<int>
    decreases ns.len() - i,
{
    if i < 0 || i >= ns.len() {
        None
    } else if ns[i].node_type@ == "ContractDefinition"@ && (ns[i].name matches Some(nm) && nm@ == name) {
        Some(i)
    } else {
        named_contract(ns, name, i + 1)
    }
}

/// The nodes the base contracts of node `k` name, in order.
pub open spec fn base_nodes(ns: Seq<LayoutNode>, bases: Seq<Option<i64>>) -> Seq<int>
    decreases bases.len(),
{
    if bases.len() == 0 {
        Seq::empty()
    } else {
        let head = match bases[0] {
            Some(id) => match node_by_id(ns, id, ns.len() as int) {
                Some(j) => seq![j],
                None => Seq::empty(),
            },
            None => Seq::empty(),
        };
        head + base_nodes(ns, bases.drop_first())
    }
}

pub struct DState {
    pub visited: Seq<i64>,
    pub pending: Seq<int>,
}

pub enum DRun {
    Going(DState),
    Done(bool),
}

/// One visit of the search over the contract and its bases: a node that
/// declares storage ends it; otherwise its bases are queued.
pub open spec fn d_step(ns: Seq<LayoutNode>, st: DState) -> DRun {
    if st.pending.len() == 0 {
        DRun::Done(false)
    } else {
        let k = st.pending.last();
        let rest = st.pending.drop_last();
        if st.visited.contains(ns[k].id) {
            DRun::Going(DState { visited: st.visited, pending: rest })
        } else if declares(ns[k]) {
            DRun::Done(true)
        } else {
            DRun::Going(DState { visited: st.visited.push(ns[k].id), pending: rest + base_nodes(ns, ns[k].bases@) })
        }
    }
}

pub open spec fn d_run(ns: Seq<LayoutNode>, r: DRun, n: nat) -> DRun
    decreases n,
{
    if n == 0 {
        r
    } else {
        match r {
            DRun::Going(st) => d_run(ns, d_step(ns, st), (n - 1) as nat),
            _ => r,
        }
    }
}

pub open spec fn d_start(ns: Seq<LayoutNode>, name: Seq<char>) -> DRun {
    match named_contract(ns, name, 0) {
        Some(k) => DRun::Going(DState { visited: Seq::empty(), pending: seq![k] }),
        None => DRun::Done(false),
    }
}

proof fn lemma_d_run_next(ns: Seq<LayoutNode>, r: DRun, n: nat, st: DState)
    requires
        d_run(ns, r, n) == DRun::Going(st),
    ensures
        d_run(ns, r, n + 1) == d_step(ns, st),
    decreases n,
{
    if n == 0 {
        assert(d_run(ns, d_step(ns, st), 0) == d_step(ns, st));
        assert(d_run(ns, r, 1) == d_run(ns, d_step(ns, st), 0));
    } else {
        match r {
            DRun::Going(s0) => {
                lemma_d_run_next(ns, d_step(ns, s0), (n - 1) as nat, st);
                assert(d_run(ns, r, n + 1) == d_run(ns, d_step(ns, s0), n));
            },
            _ => {},
        }
    }
}

proof fn lemma_node_by_id(ns: Seq<LayoutNode>, id: i64, i: int)
    ensures
        node_by_id(ns, id, i) matches Some(j) ==> 0 <= j < ns.len(),
    decreases i,
{
    if 0 < i <= ns.len() && ns[i - 1].id != id {
        lemma_node_by_id(ns, id, i - 1);
    }
}

proof fn lemma_base_nodes(ns: Seq<LayoutNode>, bases: Seq<Option<i64>>)
    ensures
        forall|i: int| 0 <= i < base_nodes(ns, bases).len() ==> 0 <= #[trigger] base_nodes(ns, bases)[i] < ns.len(),
    decreases bases.len(),
{
    if bases.len() > 0 {
        lemma_base_nodes(ns, bases.drop_first());
        match bases[0] {
            Some(id) => lemma_node_by_id(ns, id, ns.len() as int),
            None => {},
        }
        let head = match bases[0] {
            Some(id) => match node_by_id(ns, id, ns.len() as int) {
                Some(j) => seq![j],
                None => Seq::empty(),
            },
            None => Seq::empty(),
        };
        let t = base_nodes(ns, bases.drop_first());
        assert forall|i: int| 0 <= i < (head + t).len() implies 0 <= #[trigger] (head + t)[i] < ns.len() by {
            if i >= head.len() {
                assert((head + t)[i] == t[i - head.len()]);
            }
        }
    }
}

proof fn lemma_named_contract(ns: Seq<LayoutNode>, name: Seq<char>, i: int)
    ensures
        named_contract(ns, name, i) matches Some(k) ==> 0 <= k < ns.len() && ns[k].node_type@ == "ContractDefinition"@
            && (ns[k].name matches Some(nm) && nm@ == name),
    decreases ns.len() - i,
{
    if 0 <= i < ns.len() && !(ns[i].node_type@ == "ContractDefinition"@ && (ns[i].name matches Some(nm) && nm@ == name)) {
        lemma_named_contract(ns, name, i + 1);
    }
}

/// No node has a member that is a state variable neither constant nor
/// immutable.
pub open spec fn no_storage_members(ns: Seq<LayoutNode>) -> bool {
    forall|i: int, j: int| 0 <= i < ns.len() && 0 <= j < ns[i].children@.len() ==> !({
        let c = #[trigger] ns[i].children@[j];
        c.node_type@ == "VariableDeclaration"@ && c.state_variable && !c.constant && c.mutability@ != "immutable"@
    })
}

proof fn lemma_no_storage_run(ns: Seq<LayoutNode>, r: DRun, n: nat)
    requires
        no_storage_members(ns),
        r != DRun::Done(true),
        r matches DRun::Going(st) ==> forall|x: int| 0 <= x < st.pending.len() ==> 0 <= #[trigger] st.pending[x] < ns.len(),
    ensures
        d_run(ns, r, n) != DRun::Done(true),
    decreases n,
{
    if n > 0 {
        match r {
            DRun::Going(st) => {
                let nx = d_step(ns, st);
                if st.pending.len() > 0 {
                    let k = st.pending.last();
                    assert(0 <= k < ns.len());
                    assert(!declares(ns[k])) by {
                        if declares(ns[k]) {
                            let j = choose|j: int| 0 <= j < ns[k].children@.len() && takes_storage(#[trigger] ns[k].children@[j]);
                            assert(ns[k].children@[j] == ns[k].children@[j]);
                        }
                    }
                    lemma_base_nodes(ns, ns[k].bases@);
                    let rest = st.pending.drop_last();
                    let b = base_nodes(ns, ns[k].bases@);
                    assert forall|x: int| 0 <= x < (rest + b).len() implies 0 <= #[trigger] (rest + b)[x] < ns.len() by {
                        if x < rest.len() {
                            assert((rest + b)[x] == st.pending[x]);
                        } else {
                            assert((rest + b)[x] == b[x - rest.len()]);
                        }
                    }
                    assert forall|x: int| 0 <= x < rest.len() implies 0 <= #[trigger] rest[x] < ns.len() by {
                        assert(rest[x] == st.pending[x]);
                    }
                }
                lemma_no_storage_run(ns, nx, (n - 1) as nat);
            },
            _ => {},
        }
    }
}

/// A contract none of whose members, among all the nodes, is a state
/// variable that is neither constant nor immutable declares no storage: the
/// search over it and its bases never finds storage, so an empty layout for
/// it is accepted.
pub proof fn lemma_constants_declare_no_storage(ns: Seq<LayoutNode>, name: Seq<char>, n: nat)
    requires
        no_storage_members(ns),
    ensures
        d_run(ns, d_start(ns, name), n) != DRun::Done(true),
{
    lemma_named_contract(ns, name, 0);
    lemma_no_storage_run(ns, d_start(ns, name), n);
}

/// A contract (the first contract definition of its name) with a member that
/// is a state variable neither constant nor immutable declares storage: the
/// search ends at its first step.
pub proof fn lemma_own_state_variable_declares_storage(ns: Seq<LayoutNode>, name: Seq<char>, k: int, j: int)
    requires
        named_contract(ns, name, 0) == Some(k),
        0 <= j < ns[k].children@.len(),
        ns[k].children@[j].node_type@ == "VariableDeclaration"@,
        ns[k].children@[j].state_variable,
        !ns[k].children@[j].constant,
        ns[k].children@[j].mutability@ != "immutable"@,
    ensures
        d_run(ns, d_start(ns, name), 1) == DRun::Done(true),
{
    assert(takes_storage(ns[k].children@[j]));
    assert(declares(ns[k]));
    let st = DState { visited: Seq::empty(), pending: seq![k] };
    assert(d_step(ns, st) == DRun::Done(true));
    assert(d_run(ns, d_step(ns, st), 0) == DRun::Done(true));
}

fn node_by_id_exec(ns: &Vec<LayoutNode>, id: i64) -> (r: Option<usize>)
    ensures
        match r {
            Some(j) => node_by_id(ns@, id, ns@.len() as int) == Some(j as int) && j < ns@.len(),
            None => node_by_id(ns@, id, ns@.len() as int) is None,
        },
{
    let mut i: usize = ns.len();
    while i > 0
        invariant
            i <= ns@.len(),
            node_by_id(ns@, id, ns@.len() as int) == node_by_id(ns@, id, i as int),
        decreases i,
    {
        if ns[i - 1].id == id {
            return Some(i - 1);
        }
        i = i - 1;
    }
    None
}

fn declares_exec(n: &LayoutNode) -> (b: bool)
    ensures
        b == declares(*n),
{
    let mut i: usize = 0;
    while i < n.children.len()
        invariant
            i <= n.children@.len(),
            forall|j: int| 0 <= j < i ==> !takes_storage(#[trigger] n.children@[j]),
        decreases n.children@.len() - i,
    {
        let c = &n.children[i];
        if same_text(c.node_type.as_str(), "VariableDeclaration") && c.state_variable && !c.constant
            && !same_text(c.mutability.as_str(), "immutable") {
            assert(takes_storage(n.children@[i as int]));
            return true;
        }
        i = i + 1;
    }
    false
}

fn contains_id(v: &Vec<i64>, id: i64) -> (r: bool)
    ensures
        r == v@.contains(id),
{
    let mut i: usize = 0;
    while i < v.len()
        invariant
            i <= v@.len(),
            forall|j: int| 0 <= j < i ==> v@[j] != id,
        decreases v@.len() - i,
    {
        if v[i] == id {
            assert(v@[i as int] == id);
            return true;
        }
        i = i + 1;
    }
    false
}

/// The ids of all nodes, as a set.
pub open spec fn ids_set(ns: Seq<LayoutNode>) -> Set<i64> {
    ns.map_values(|n: LayoutNode| n.id).to_set()
}

/// Whether the contract `name` (the first contract definition of that
/// name) or a contract it inherits from, as far as the nodes show,
/// declares a state variable that takes storage.
pub fn contract_declares_storage(ns: &Vec<LayoutNode>, name: &String) -> (b: bool)
    ensures
        exists|n: nat| #[trigger] d_run(ns@, d_start(ns@, name@), n) == DRun::Done(b),
{
    let ghost universe = ids_set(ns@);
    let mut i: usize = 0;
    let mut start: Option<usize> = None;
    while i < ns.len() && start.is_none()
        invariant
            i <= ns@.len(),
            start is None ==> named_contract(ns@, name@, 0) == named_contract(ns@, name@, i as int),
            start matches Some(k) ==> named_contract(ns@, name@, 0) == Some(k as int) && k < ns@.len(),
        decreases ns@.len() - i, if start is None { 1int } else { 0int },
    {
        let matches_name = match &ns[i].name {
            Some(nm) => same_text(nm.as_str(), name.as_str()),
            None => false,
        };
        if same_text(ns[i].node_type.as_str(), "ContractDefinition") && matches_name {
            start = Some(i);
        } else {
            i = i + 1;
        }
    }
    let k0 = match start {
        Some(k) => k,
        None => {
            assert(d_run(ns@, d_start(ns@, name@), 0) == DRun::Done(false));
            return false;
        },
    };
    let mut visited: Vec<i64> = Vec::new();
    let mut pending: Vec<usize> = Vec::new();
    pending.push(k0);
    let ghost mut n: nat = 0;
    proof {
        assert(pending@.map_values(|x: usize| x as int) =~= seq![k0 as int]);
        assert(visited@.to_set() =~= Set::empty());
        seq_to_set_is_finite(ns@.map_values(|n: LayoutNode| n.id));
    }
    while pending.len() > 0
        invariant
            universe == ids_set(ns@),
            universe.finite(),
            d_run(ns@, d_start(ns@, name@), n) == DRun::Going(
                DState { visited: visited@, pending: pending@.map_values(|x: usize| x as int) },
            ),
            forall|j: int| 0 <= j < pending@.len() ==> #[trigger] pending@[j] < ns@.len(),
            visited@.to_set().subset_of(universe),
            visited@.to_set().len() <= universe.len(),
        decreases universe.len() - visited@.to_set().len(), pending@.len(),
    {
        let ghost st = DState { visited: visited@, pending: pending@.map_values(|x: usize| x as int) };
        proof {
            lemma_d_run_next(ns@, d_start(ns@, name@), n, st);
        }
        let k = pending.pop().unwrap();
        proof {
            assert(pending@.map_values(|x: usize| x as int) =~= st.pending.drop_last());
            assert(k as int == st.pending.last());
        }
        let id = ns[k].id;
        if contains_id(&visited, id) {
            proof {
                n = n + 1;
            }
        } else if declares_exec(&ns[k]) {
            proof {
                n = n + 1;
                assert(d_run(ns@, d_start(ns@, name@), n) == DRun::Done(true));
            }
            return true;
        } else {
            let ghost v0 = visited@;
            visited.push(id);
            proof {
                v0.lemma_push_to_set_commute(id);
                assert(ns@.map_values(|n: LayoutNode| n.id)[k as int] == id);
                vstd::set_lib::lemma_len_subset(visited@.to_set(), universe);
                lemma_base_nodes(ns@, ns@[k as int].bases@);
            }
            let bases = &ns[k].bases;
            let ghost p0 = pending@.map_values(|x: usize| x as int);
            let ghost target = base_nodes(ns@, bases@);
            let mut b: usize = 0;
            assert(bases@.subrange(0, bases@.len() as int) =~= bases@);
            while b < bases.len()
                invariant
                    b <= bases@.len(),
                    target == base_nodes(ns@, bases@),
                    forall|j: int| 0 <= j < pending@.len() ==> #[trigger] pending@[j] < ns@.len(),
                    pending@.map_values(|x: usize| x as int) + base_nodes(ns@, bases@.subrange(b as int, bases@.len() as int))
                        == p0 + target,
                decreases bases@.len() - b,
            {
                let ghost rest = bases@.subrange(b as int, bases@.len() as int);
                assert(rest[0] == bases@[b as int]);
                assert(rest.drop_first() =~= bases@.subrange(b + 1, bases@.len() as int));
                let ghost before = pending@.map_values(|x: usize| x as int);
                match bases[b] {
                    Some(bid) => match node_by_id_exec(ns, bid) {
                        Some(j) => {
                            pending.push(j);
                            assert(pending@.map_values(|x: usize| x as int) =~= before.push(j as int));
                            assert(before.push(j as int) + base_nodes(ns@, rest.drop_first()) =~= before + base_nodes(ns@, rest));
                        },
                        None => {
                            assert(base_nodes(ns@, rest) =~= base_nodes(ns@, rest.drop_first()));
                        },
                    },
                    None => {
                        assert(base_nodes(ns@, rest) =~= base_nodes(ns@, rest.drop_first()));
                    },
                }
                b = b + 1;
            }
            proof {
                assert(bases@.subrange(b as int, bases@.len() as int) =~= Seq::<Option<i64>>::empty());
                assert(pending@.map_values(|x: usize| x as int) + Seq::<int>::empty() =~= pending@.map_values(|x: usize| x as int));
                n = n + 1;
            }
        }
    }
    proof {
        let st = DState { visited: visited@, pending: pending@.map_values(|x: usize| x as int) };
        lemma_d_run_next(ns@, d_start(ns@, name@), n, st);
        n = n + 1;
    }
    false
}

/// The message for an empty layout of a contract that declares storage.
pub open spec fn empty_layout_message(display: Seq<char>) -> Seq<char> {
    "artifact `"@ + display
        + "` has an empty storage layout even though the contract declares storage variables; storage layout output is not available for solc < 0.6 builds"@
}

/// Refuse an artifact whose layout lists no entry (or is missing) while
/// the contract declares storage; `display` names the artifact.
pub fn ensure_layout_available(layout: &Option<StorageLayout>, nodes: &Option<Vec<LayoutNode>>, display: &String, name: &String) -> (r: Result<(), String>)
    ensures
        (r is Ok) <== (layout matches Some(l) && l.storage@.len() > 0),
        r matches Err(e) ==> e@ == empty_layout_message(display@),
        !(layout matches Some(l) && l.storage@.len() > 0) ==> match nodes {
            Some(ns) => exists|n: nat| #[trigger] d_run(ns@, d_start(ns@, name@), n) == DRun::Done(r is Err),
            None => r is Ok,
        },
{
    let has_entries = match layout {
        Some(l) => l.storage.len() > 0,
        None => false,
    };
    if has_entries {
        return Ok(());
    }
    let declares_storage = match nodes {
        Some(ns) => contract_declares_storage(ns, name),
        None => false,
    };
    if declares_storage {
        let mut msg = String::from_str("artifact `");
        push_str(&mut msg, display.as_str());
        push_str(
            &mut msg,
            "` has an empty storage layout even though the contract declares storage variables; storage layout output is not available for solc < 0.6 builds",
        );
        return Err(msg);
    }
    Ok(())
}

} // verus!
