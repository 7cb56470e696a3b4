//! The modifiers a contract can use: those it defines and those of every
//! contract it inherits from, most derived first, each name once.
use vstd::prelude::*;
use crate::strings::{chars_eq, chars_of, decimal, decimal_exec, push_str};
use vstd::seq_lib::seq_to_set_is_finite;

verus! {

/// A modifier definition found in a contract or one of its ancestors.
#[derive(Debug)]
pub struct ModifierInfo {
    /// The modifier name.
    pub name: String,
    /// The source file path (relative to the project root).
    pub source_file: String,
    /// The line where the modifier is defined (0 when the file could not be
    /// read).
    pub line: usize,
}

/// The modifiers of a contract.
#[derive(Debug)]
pub struct ModifierInspectorOutput {
    pub contract_name: String,
    pub source_file: String,
    pub modifiers: Vec<ModifierInfo>,
}

/// A contract (or library) of the project: its name, its source file, the
/// names of its base contracts and its modifiers with their byte offsets.
#[derive(Debug)]
pub struct ModifierContract {
    pub name: String,
    pub file: String,
    pub bases: Vec<String>,
    pub modifiers: Vec<(String, usize)>,
}

/// The bytes of a source file, if it could be read.
#[derive(Debug)]
pub struct SourceText {
    pub file: String,
    pub bytes: Option<Vec<u8>>,
}

/// A modifier as a value: name, file, line.
pub type ModV = (Seq<char>, Seq<char>, usize);

pub open spec fn mod_view(m: ModifierInfo) -> ModV {
    (m.name@, m.source_file@, m.line)
}

pub open spec fn mods_view(v: Seq<ModifierInfo>) -> Seq<ModV> {
    v.map_values(|m: ModifierInfo| mod_view(m))
}

/// The number of line feeds in `b`.
pub open spec fn newline_count(b: Seq<u8>) -> nat
    decreases b.len(),
{
    if b.len() == 0 {
        0
    } else {
        newline_count(b.drop_last()) + if b.last() == 10u8 {
            1nat
        } else {
            0nat
        }
    }
}

pub open spec fn text_from(ts: Seq<SourceText>, file: Seq<char>, i: int) -> Option<int>
    decreases ts.len() - i,
{
    if i < 0 || i >= ts.len() {
        None
    } else if ts[i].file@ == file {
        Some(i)
    } else {
        text_from(ts, file, i + 1)
    }
}

/// The 1-based line of byte `off` of `file`: one more than the line feeds
/// before it; 0 when the file could not be read.
pub open spec fn line_of(ts: Seq<SourceText>, file: Seq<char>, off: usize) -> nat {
    match text_from(ts, file, 0) {
        Some(k) => match ts[k].bytes {
            Some(b) => newline_count(b@.subrange(0, if off < b@.len() { off as int } else { b@.len() as int })) + 1,
            None => 0,
        },
        None => 0,
    }
}

pub open spec fn contract_from(cs: Seq<ModifierContract>, name: Seq<char>, i: int) -> Option<int>
    decreases cs.len() - i,
{
    if i < 0 || i >= cs.len() {
        None
    } else if cs[i].name@ == name {
        Some(i)
    } else {
        contract_from(cs, name, i + 1)
    }
}

/// The modifiers a contract defines, in order.
pub open spec fn own_mods(c: ModifierContract, ts: Seq<SourceText>) -> Seq<ModV> {
    c.modifiers@.map_values(|m: (String, usize)| (m.0@, c.file@, line_of(ts, c.file@, m.1) as usize))
}

/// The names of the base contracts, last first.
pub open spec fn bases_rev(c: ModifierContract) -> Seq<Seq<char>> {
    Seq::new(c.bases@.len(), |i: int| c.bases@[c.bases@.len() - 1 - i]@)
}

/// The state of the walk: the contracts visited, the names still to visit
/// (the last is visited next) and the modifiers found.
pub struct MState {
    pub visited: Seq<Seq<char>>,
    pub stack: Seq<Seq<char>>,
    pub out: Seq<ModV>,
}

pub enum MRun {
    Going(MState),
    Done(Seq<ModV>),
    /// A contract to visit is unknown: its name.
    Failed(Seq<char>),
}

/// One visit of the depth-first walk over the inheritance graph: a
/// contract's own modifiers, then (in order) those of each base contract
/// not visited yet.
pub open spec fn m_step(cs: Seq<ModifierContract>, ts: Seq<SourceText>, st: MState) -> MRun {
    if st.stack.len() == 0 {
        MRun::Done(st.out)
    } else {
        let name = st.stack.last();
        let rest = st.stack.drop_last();
        if st.visited.contains(name) {
            MRun::Going(MState { visited: st.visited, stack: rest, out: st.out })
        } else {
            match contract_from(cs, name, 0) {
                None => MRun::Failed(name),
                Some(k) => MRun::Going(
                    MState {
                        visited: st.visited.push(name),
                        stack: rest + bases_rev(cs[k]),
                        out: st.out + own_mods(cs[k], ts),
                    },
                ),
            }
        }
    }
}

pub open spec fn m_run(cs: Seq<ModifierContract>, ts: Seq<SourceText>, r: MRun, n: nat) -> MRun
    decreases n,
{
    if n == 0 {
        r
    } else {
        match r {
            MRun::Going(st) => m_run(cs, ts, m_step(cs, ts, st), (n - 1) as nat),
            _ => r,
        }
    }
}

pub open spec fn m_start(name: Seq<char>) -> MRun {
    MRun::Going(MState { visited: Seq::empty(), stack: seq![name], out: Seq::empty() })
}

proof fn lemma_m_run_next(cs: Seq<ModifierContract>, ts: Seq<SourceText>, r: MRun, n: nat, st: MState)
    requires
        m_run(cs, ts, r, n) == MRun::Going(st),
    ensures
        m_run(cs, ts, r, n + 1) == m_step(cs, ts, st),
    decreases n,
{
    if n == 0 {
        assert(m_run(cs, ts, m_step(cs, ts, st), 0) == m_step(cs, ts, st));
        assert(m_run(cs, ts, r, 1) == m_run(cs, ts, m_step(cs, ts, st), 0));
    } else {
        match r {
            MRun::Going(s0) => {
                lemma_m_run_next(cs, ts, m_step(cs, ts, s0), (n - 1) as nat, st);
                assert(m_run(cs, ts, r, n + 1) == m_run(cs, ts, m_step(cs, ts, s0), n));
            },
            _ => {},
        }
    }
}

/// The modifiers of `v` whose name no earlier modifier has.
pub open spec fn keep_first(v: Seq<ModV>) -> Seq<ModV>
    decreases v.len(),
{
    if v.len() == 0 {
        Seq::empty()
    } else {
        let k = keep_first(v.drop_last());
        if exists|j: int| 0 <= j < v.len() - 1 && #[trigger] v[j].0 == v.last().0 {
            k
        } else {
            k.push(v.last())
        }
    }
}

/// The file of the named contract, or empty.
pub open spec fn source_of(cs: Seq<ModifierContract>, name: Seq<char>) -> Seq<char> {
    match contract_from(cs, name, 0) {
        Some(k) => cs[k].file@,
        None => Seq::empty(),
    }
}

fn same_text(a: &str, b: &str) -> (r: bool)
    ensures
        r == (a@ == b@),
{
    chars_eq(&chars_of(a), &chars_of(b))
}

fn contract_pos(cs: &Vec<ModifierContract>, name: &String) -> (r: Option<usize>)
    ensures
        match r {
            Some(k) => contract_from(cs@, name@, 0) == Some(k as int) && k < cs@.len(),
            None => contract_from(cs@, name@, 0) is None,
        },
{
    let mut i: usize = 0;
    while i < cs.len()
        invariant
            i <= cs@.len(),
            contract_from(cs@, name@, 0) == contract_from(cs@, name@, i as int),
        decreases cs@.len() - i,
    {
        if same_text(cs[i].name.as_str(), name.as_str()) {
            return Some(i);
        }
        i = i + 1;
    }
    None
}

fn newlines_before(b: &Vec<u8>, end: usize) -> (n: usize)
    requires
        end <= b@.len(),
    ensures
        n == newline_count(b@.subrange(0, end as int)),
        n <= end,
{
    let mut n: usize = 0;
    let mut i: usize = 0;
    while i < end
        invariant
            i <= end,
            end <= b@.len(),
            n == newline_count(b@.subrange(0, i as int)),
            n <= i,
        decreases end - i,
    {
        assert(b@.subrange(0, i + 1).drop_last() =~= b@.subrange(0, i as int));
        if b[i] == 10u8 {
            n = n + 1;
        }
        i = i + 1;
    }
    n
}

/// Every source text is shorter than the largest `usize` (a text held
/// in memory always is).
pub open spec fn texts_fit(ts: Seq<SourceText>) -> bool {
    forall|k: int| 0 <= k < ts.len() && (#[trigger] ts[k]).bytes is Some ==> ts[k].bytes->0@.len() < usize::MAX
}

/// The line of byte `off` of `file` (see [`line_of`]).
pub fn line_of_exec(ts: &Vec<SourceText>, file: &String, off: usize) -> (r: usize)
    requires
        texts_fit(ts@),
    ensures
        r == line_of(ts@, file@, off),
{
    let mut i: usize = 0;
    while i < ts.len()
        invariant
            i <= ts@.len(),
            texts_fit(ts@),
            text_from(ts@, file@, 0) == text_from(ts@, file@, i as int),
        decreases ts@.len() - i,
    {
        if same_text(ts[i].file.as_str(), file.as_str()) {
            return match &ts[i].bytes {
                Some(b) => {
                    assert(ts@[i as int].bytes is Some);
                    let end = if off < b.len() {
                        off
                    } else {
                        b.len()
                    };
                    newlines_before(b, end) + 1
                },
                None => 0,
            };
        }
        i = i + 1;
    }
    0
}

/// The names of all contracts, as a set.
pub open spec fn names_set(cs: Seq<ModifierContract>) -> Set<Seq<char>> {
    cs.map_values(|c: ModifierContract| c.name@).to_set()
}

proof fn lemma_contract_from_range(cs: Seq<ModifierContract>, name: Seq<char>, i: int)
    ensures
        contract_from(cs, name, i) matches Some(k) ==> 0 <= k < cs.len() && cs[k].name@ == name,
    decreases cs.len() - i,
{
    if 0 <= i < cs.len() && cs[i].name@ != name {
        lemma_contract_from_range(cs, name, i + 1);
    }
}

/// Collect the modifiers of `name` and of every contract it inherits from
/// (depth first, bases in order, each contract once), then keep the first
/// modifier of each name. Fails when a contract on the way is unknown.
pub fn inspect_modifiers(name: &String, contracts: &Vec<ModifierContract>, texts: &Vec<SourceText>) -> (r: Result<ModifierInspectorOutput, String>)
    requires
        texts_fit(texts@),
    ensures
        match r {
            Ok(o) => exists|n: nat| #[trigger] m_run(contracts@, texts@, m_start(name@), n) matches MRun::Done(v)
                && mods_view(o.modifiers@) == keep_first(v),
            Err(e) => exists|n: nat| #[trigger] m_run(contracts@, texts@, m_start(name@), n) matches MRun::Failed(missing)
                && e@ == "contract `"@ + missing + "` not found in artifacts"@,
        },
        r matches Ok(o) ==> o.contract_name@ == name@ && o.source_file@ == source_of(contracts@, name@),
{
    let ghost cs = contracts@;
    let ghost ts = texts@;
    let ghost universe = names_set(cs);
    let source_file = match contract_pos(contracts, name) {
        Some(k) => contracts[k].file.clone(),
        None => String::new(),
    };
    let mut visited: Vec<String> = Vec::new();
    let mut stack: Vec<String> = Vec::new();
    let mut found: Vec<ModifierInfo> = Vec::new();
    stack.push(name.clone());
    let ghost mut n: nat = 0;
    proof {
        assert(names_view(visited@) =~= Seq::empty());
        assert(names_view(stack@) =~= seq![name@]);
        assert(mods_view(found@) =~= Seq::empty());
        assert(names_view(visited@).to_set() =~= Set::empty());
        seq_to_set_is_finite(cs.map_values(|c: ModifierContract| c.name@));
    }
    while stack.len() > 0
        invariant
            cs == contracts@,
            ts == texts@,
            texts_fit(texts@),
            universe == names_set(cs),
            universe.finite(),
            m_run(cs, ts, m_start(name@), n) == MRun::Going(
                MState { visited: names_view(visited@), stack: names_view(stack@), out: mods_view(found@) },
            ),
            names_view(visited@).to_set().subset_of(universe),
            names_view(visited@).to_set().len() <= universe.len(),
        decreases universe.len() - names_view(visited@).to_set().len(), stack@.len(),
    {
        let ghost st = MState { visited: names_view(visited@), stack: names_view(stack@), out: mods_view(found@) };
        proof {
            lemma_m_run_next(cs, ts, m_start(name@), n, st);
        }
        let current = stack.pop().unwrap();
        proof {
            assert(names_view(stack@) =~= st.stack.drop_last());
            assert(current@ == st.stack.last());
        }
        if contains_name(&visited, &current) {
            proof {
                n = n + 1;
            }
        } else {
            match contract_pos(contracts, &current) {
                None => {
                    proof {
                        n = n + 1;
                        assert(m_run(cs, ts, m_start(name@), n) == MRun::Failed(current@));
                    }
                    let mut msg = String::from_str("contract `");
                    push_str(&mut msg, current.as_str());
                    push_str(&mut msg, "` not found in artifacts");
                    return Err(msg);
                },
                Some(k) => {
                    let c = &contracts[k];
                    proof {
                        lemma_contract_from_range(cs, current@, 0);
                        assert(cs.map_values(|c: ModifierContract| c.name@)[k as int] == current@);
                    }
                    let ghost old_set = names_view(visited@).to_set();
                    let ghost v0 = names_view(visited@);
                    visited.push(current);
                    proof {
                        assert(names_view(visited@) =~= v0.push(st.stack.last()));
                        v0.lemma_push_to_set_commute(st.stack.last());
                        vstd::set_lib::lemma_len_subset(names_view(visited@).to_set(), universe);
                    }
                    let ghost f0 = mods_view(found@);
                    let mut j: usize = 0;
                    while j < c.modifiers.len()
                        invariant
                            texts_fit(texts@),
                            j <= c.modifiers@.len(),
                            mods_view(found@) == f0 + own_mods(*c, texts@).subrange(0, j as int),
                        decreases c.modifiers@.len() - j,
                    {
                        let line = line_of_exec(texts, &c.file, c.modifiers[j].1);
                        let info = ModifierInfo { name: c.modifiers[j].0.clone(), source_file: c.file.clone(), line };
                        let ghost before = mods_view(found@);
                        found.push(info);
                        proof {
                            assert(mods_view(found@) =~= before.push(mod_view(info)));
                            assert(own_mods(*c, texts@).subrange(0, j + 1) =~= own_mods(*c, texts@).subrange(0, j as int).push(mod_view(info)));
                        }
                        j = j + 1;
                    }
                    proof {
                        assert(own_mods(*c, texts@).subrange(0, j as int) =~= own_mods(*c, texts@));
                    }
                    let ghost s0 = names_view(stack@);
                    let mut b: usize = c.bases.len();
                    while b > 0
                        invariant
                            b <= c.bases@.len(),
                            names_view(stack@) == s0 + bases_rev(*c).subrange(0, (c.bases@.len() - b) as int),
                        decreases b,
                    {
                        let ghost before = names_view(stack@);
                        stack.push(c.bases[b - 1].clone());
                        proof {
                            assert(names_view(stack@) =~= before.push(c.bases@[b - 1]@));
                            assert(bases_rev(*c).subrange(0, (c.bases@.len() - b + 1) as int) =~= bases_rev(*c).subrange(
                                0,
                                (c.bases@.len() - b) as int,
                            ).push(c.bases@[b - 1]@));
                        }
                        b = b - 1;
                    }
                    proof {
                        assert(bases_rev(*c).subrange(0, c.bases@.len() as int) =~= bases_rev(*c));
                        n = n + 1;
                    }
                },
            }
        }
    }
    proof {
        let st = MState { visited: names_view(visited@), stack: names_view(stack@), out: mods_view(found@) };
        lemma_m_run_next(cs, ts, m_start(name@), n, st);
        n = n + 1;
        assert(m_run(cs, ts, m_start(name@), n) == MRun::Done(mods_view(found@)));
    }
    let kept = keep_first_exec(&found);
    Ok(ModifierInspectorOutput { contract_name: name.clone(), source_file, modifiers: kept })
}

/// Names as values.
pub open spec fn names_view(v: Seq<String>) -> Seq<Seq<char>> {
    v.map_values(|s: String| s@)
}

fn contains_name(v: &Vec<String>, name: &String) -> (r: bool)
    ensures
        r == names_view(v@).contains(name@),
{
    let mut i: usize = 0;
    while i < v.len()
        invariant
            i <= v@.len(),
            forall|j: int| 0 <= j < i ==> names_view(v@)[j] != name@,
        decreases v@.len() - i,
    {
        if same_text(v[i].as_str(), name.as_str()) {
            assert(names_view(v@)[i as int] == name@);
            return true;
        }
        i = i + 1;
    }
    false
}

fn keep_first_exec(v: &Vec<ModifierInfo>) -> (r: Vec<ModifierInfo>)
    ensures
        mods_view(r@) == keep_first(mods_view(v@)),
{
    let mut r: Vec<ModifierInfo> = Vec::new();
    let mut i: usize = 0;
    assert(mods_view(v@).subrange(0, 0) =~= Seq::<ModV>::empty());
    while i < v.len()
        invariant
            i <= v@.len(),
            mods_view(r@) == keep_first(mods_view(v@).subrange(0, i as int)),
        decreases v@.len() - i,
    {
        let ghost w = mods_view(v@).subrange(0, i as int + 1);
        assert(w.drop_last() =~= mods_view(v@).subrange(0, i as int));
        assert(w.last() == mod_view(v@[i as int]));
        let mut dup = false;
        let mut j: usize = 0;
        while j < i
            invariant
                j <= i,
                i < v@.len(),
                w == mods_view(v@).subrange(0, i as int + 1),
                dup == exists|k: int| 0 <= k < j && #[trigger] w[k].0 == w.last().0,
            decreases i - j,
        {
            if same_text(v[j].name.as_str(), v[i].name.as_str()) {
                assert(w[j as int].0 == w.last().0);
                dup = true;
            }
            j = j + 1;
        }
        if !dup {
            let info = ModifierInfo { name: v[i].name.clone(), source_file: v[i].source_file.clone(), line: v[i].line };
            let ghost before = mods_view(r@);
            r.push(info);
            proof {
                assert(mods_view(r@) =~= before.push(mod_view(info)));
            }
        }
        i = i + 1;
    }
    assert(mods_view(v@).subrange(0, v@.len() as int) =~= mods_view(v@));
    r
}

/// The report text.
pub open spec fn modifiers_report(o: ModifierInspectorOutput) -> Seq<char> {
    "Contract: "@ + o.contract_name@ + "\nSource: "@ + o.source_file@ + "\n\nFound "@ + decimal(o.modifiers@.len())
        + " modifiers.\n\n"@ + modifier_lines(mods_view(o.modifiers@), 0)
}

/// The numbered lines `i. name (source: file:line)` from entry `i` on.
pub open spec fn modifier_lines(v: Seq<ModV>, i: int) -> Seq<char>
    decreases v.len() - i,
{
    if i < 0 || i >= v.len() {
        Seq::empty()
    } else {
        decimal((i + 1) as nat) + ". "@ + v[i].0 + " (source: "@ + v[i].1 + ":"@ + decimal(v[i].2 as nat) + ")\n"@
            + modifier_lines(v, i + 1)
    }
}

impl ModifierInspectorOutput {
    /// Create a new [`ModifierInspectorOutput`].
    pub fn new(contract_name: &str, source_file: &str, modifiers: Vec<ModifierInfo>) -> (r: Self)
        ensures
            r.contract_name@ == contract_name@,
            r.source_file@ == source_file@,
            r.modifiers@ == modifiers@,
    {
        ModifierInspectorOutput {
            contract_name: String::from_str(contract_name),
            source_file: String::from_str(source_file),
            modifiers,
        }
    }

    /// The report: the contract, its source, and the numbered modifiers.
    pub fn to_string(&self) -> (s: String)
        requires
            self.modifiers@.len() < usize::MAX,
        ensures
            s@ == modifiers_report(*self),
    {
        let mut s = String::from_str("Contract: ");
        push_str(&mut s, self.contract_name.as_str());
        push_str(&mut s, "\nSource: ");
        push_str(&mut s, self.source_file.as_str());
        push_str(&mut s, "\n\nFound ");
        let count = decimal_exec(self.modifiers.len());
        push_str(&mut s, count.as_str());
        push_str(&mut s, " modifiers.\n\n");
        let ghost head = s@;
        let ghost v = mods_view(self.modifiers@);
        let mut i: usize = 0;
        while i < self.modifiers.len()
            invariant
                i <= self.modifiers@.len(),
                self.modifiers@.len() < usize::MAX,
                v == mods_view(self.modifiers@),
                s@ + modifier_lines(v, i as int) == head + modifier_lines(v, 0),
            decreases self.modifiers@.len() - i,
        {
            let m = &self.modifiers[i];
            let ghost before = s@;
            let num = decimal_exec(i + 1);
            push_str(&mut s, num.as_str());
            push_str(&mut s, ". ");
            push_str(&mut s, m.name.as_str());
            push_str(&mut s, " (source: ");
            push_str(&mut s, m.source_file.as_str());
            push_str(&mut s, ":");
            let line = decimal_exec(m.line);
            push_str(&mut s, line.as_str());
            push_str(&mut s, ")\n");
            proof {
                let piece = decimal((i + 1) as nat) + ". "@ + v[i as int].0 + " (source: "@ + v[i as int].1 + ":"@
                    + decimal(v[i as int].2 as nat) + ")\n"@;
                assert(s@ =~= before + piece);
                assert(modifier_lines(v, i as int) == piece + modifier_lines(v, i + 1));
                assert(before + (piece + modifier_lines(v, i + 1)) =~= s@ + modifier_lines(v, i + 1));
            }
            i = i + 1;
        }
        proof {
            assert(s@ + Seq::<char>::empty() =~= s@);
        }
        s
    }
}

/// Some modifier of `v` has the name `n`.
pub open spec fn has_name(v: Seq<ModV>, n: Seq<char>) -> bool {
    exists|j: int| 0 <= j < v.len() && (#[trigger] v[j]).0 == n
}

/// The modifiers kept list each name once, lose no name, and keep for each
/// name the first modifier of that name.
pub proof fn lemma_keep_first(v: Seq<ModV>)
    ensures
        forall|i: int, j: int| 0 <= i < j < keep_first(v).len() ==> (#[trigger] keep_first(v)[i]).0 != (#[trigger] keep_first(v)[j]).0,
        forall|n: Seq<char>| has_name(v, n) <==> has_name(keep_first(v), n),
        forall|j: int| 0 <= j < keep_first(v).len() ==> exists|i: int|
            0 <= i < v.len() && v[i] == #[trigger] keep_first(v)[j] && !has_name(v.subrange(0, i), v[i].0),
    decreases v.len(),
{
    if v.len() > 0 {
        let w = v.drop_last();
        lemma_keep_first(w);
        let k = keep_first(w);
        let x = v.last();
        assert forall|n: Seq<char>| has_name(w, n) implies has_name(v, n) by {
            let j = choose|j: int| 0 <= j < w.len() && (#[trigger] w[j]).0 == n;
            assert(v[j] == w[j]);
        }
        if exists|j: int| 0 <= j < v.len() - 1 && #[trigger] v[j].0 == x.0 {
            assert(keep_first(v) == k);
            let j0 = choose|j: int| 0 <= j < v.len() - 1 && #[trigger] v[j].0 == x.0;
            assert(w[j0].0 == x.0);
            assert forall|n: Seq<char>| has_name(v, n) implies has_name(w, n) by {
                let j = choose|j: int| 0 <= j < v.len() && (#[trigger] v[j]).0 == n;
                if j < v.len() - 1 {
                    assert(w[j] == v[j]);
                } else {
                    assert(w[j0].0 == n);
                }
            }
            assert forall|j: int| 0 <= j < k.len() implies exists|i: int|
                0 <= i < v.len() && v[i] == #[trigger] k[j] && !has_name(v.subrange(0, i), v[i].0) by {
                let i = choose|i: int| 0 <= i < w.len() && w[i] == #[trigger] k[j] && !has_name(w.subrange(0, i), w[i].0);
                assert(v[i] == w[i]);
                assert(v.subrange(0, i) =~= w.subrange(0, i));
            }
        } else {
            let r = k.push(x);
            assert(keep_first(v) == r);
            assert(!has_name(w, x.0)) by {
                if has_name(w, x.0) {
                    let j = choose|j: int| 0 <= j < w.len() && (#[trigger] w[j]).0 == x.0;
                    assert(v[j].0 == x.0);
                }
            }
            assert forall|i: int, j: int| 0 <= i < j < r.len() implies (#[trigger] r[i]).0 != (#[trigger] r[j]).0 by {
                if j == r.len() - 1 {
                    assert(r[i] == k[i]);
                    if r[i].0 == x.0 {
                        assert(has_name(k, x.0));
                    }
                } else {
                    assert(r[i] == k[i]);
                    assert(r[j] == k[j]);
                }
            }
            assert forall|n: Seq<char>| has_name(v, n) <==> has_name(r, n) by {
                if has_name(v, n) {
                    let j = choose|j: int| 0 <= j < v.len() && (#[trigger] v[j]).0 == n;
                    if j < v.len() - 1 {
                        assert(w[j] == v[j]);
                        assert(has_name(w, n));
                        assert(has_name(k, n));
                        let m = choose|m: int| 0 <= m < k.len() && (#[trigger] k[m]).0 == n;
                        assert(r[m] == k[m]);
                    } else {
                        assert(r[r.len() - 1] == x);
                    }
                }
                if has_name(r, n) {
                    let m = choose|m: int| 0 <= m < r.len() && (#[trigger] r[m]).0 == n;
                    if m < k.len() {
                        assert(r[m] == k[m]);
                        assert(has_name(k, n));
                        assert(has_name(w, n));
                    } else {
                        assert(v[v.len() - 1].0 == n);
                    }
                }
            }
            assert forall|j: int| 0 <= j < r.len() implies exists|i: int|
                0 <= i < v.len() && v[i] == #[trigger] r[j] && !has_name(v.subrange(0, i), v[i].0) by {
                if j < k.len() {
                    assert(r[j] == k[j]);
                    let i = choose|i: int| 0 <= i < w.len() && w[i] == #[trigger] k[j] && !has_name(w.subrange(0, i), w[i].0);
                    assert(v[i] == w[i]);
                    assert(v.subrange(0, i) =~= w.subrange(0, i));
                } else {
                    assert(v.subrange(0, v.len() - 1) =~= w);
                    assert(v[v.len() - 1] == r[j]);
                }
            }
        }
    }
}

} // verus!
