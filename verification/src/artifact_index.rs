//! Name → artifact index of a Foundry `out/` directory, artifact-path
//! arithmetic (file names, stems, parent directories) and the suggestion
//! messages for ambiguous names.
use vstd::prelude::*;
use crate::strings::{
    chars_eq, chars_of, decimal, decimal_exec, find_exec, find_spec, occurs_at, push_range, push_str, rfind_exec,
    rfind_spec, string_of_range,
};
use crate::ids::opt_view;

verus! {

// ---------------------------------------------------------------------------
// Path arithmetic
// ---------------------------------------------------------------------------

/// The text after the last `/` (the whole path when there is none).
pub open spec fn file_name_spec(p: Seq<char>) -> Seq<char> {
    match rfind_spec(p, seq!['/']) {
        Some(i) => p.subrange(i + 1, p.len() as int),
        None => p,
    }
}

/// The text before the last `/` (empty when there is none).
pub open spec fn parent_spec(p: Seq<char>) -> Seq<char> {
    match rfind_spec(p, seq!['/']) {
        Some(i) => p.subrange(0, i),
        None => Seq::empty(),
    }
}

/// Name of the directory that holds `p` (empty when there is none).
pub open spec fn parent_name_spec(p: Seq<char>) -> Seq<char> {
    file_name_spec(parent_spec(p))
}

/// Position of the `.` that starts the extension of a file name: its last
/// `.`, unless that is its first character.
pub open spec fn ext_dot(name: Seq<char>) -> Option<int> {
    match rfind_spec(name, seq!['.']) {
        Some(i) if i > 0 => Some(i),
        _ => None,
    }
}

/// File name without its extension (`Path::file_stem`).
pub open spec fn stem_spec(p: Seq<char>) -> Seq<char> {
    let n = file_name_spec(p);
    match ext_dot(n) {
        Some(i) => n.subrange(0, i),
        None => n,
    }
}

/// Extension of the file name (`Path::extension`).
pub open spec fn extension_spec(p: Seq<char>) -> Option<Seq<char>> {
    let n = file_name_spec(p);
    match ext_dot(n) {
        Some(i) => Some(n.subrange(i + 1, n.len() as int)),
        None => None,
    }
}

fn last_slash(v: &Vec<char>) -> (r: Option<usize>)
    ensures
        match r {
            Some(i) => rfind_spec(v@, seq!['/']) == Some(i as int) && i < v@.len(),
            None => rfind_spec(v@, seq!['/']) is None,
        },
{
    let mut pat: Vec<char> = Vec::new();
    pat.push('/');
    assert(pat@ == seq!['/']);
    let r = rfind_exec(v, &pat);
    if let Some(i) = r {
        assert(occurs_at(v@, i as int, pat@));
    }
    r
}

/// The directory part of `path` (empty when it has none).
pub fn parent_path(path: &str) -> (r: String)
    ensures
        r@ == parent_spec(path@),
{
    let v = chars_of(path);
    match last_slash(&v) {
        None => String::new(),
        Some(i) => string_of_range(&v, 0, i),
    }
}

/// Name of the directory that holds `path`.
pub fn parent_name(path: &str) -> (r: String)
    ensures
        r@ == parent_name_spec(path@),
{
    let v = chars_of(path);
    match last_slash(&v) {
        None => String::new(),
        Some(i) => {
            let parent = string_of_range(&v, 0, i);
            let pv = chars_of(parent.as_str());
            match last_slash(&pv) {
                None => parent,
                Some(j) => string_of_range(&pv, j + 1, pv.len()),
            }
        },
    }
}

/// The file name of `path` and the position of its extension dot.
fn file_name_and_dot(path: &str) -> (r: (Vec<char>, Option<usize>))
    ensures
        r.0@ == file_name_spec(path@),
        match r.1 {
            Some(i) => ext_dot(file_name_spec(path@)) == Some(i as int) && i < r.0@.len(),
            None => ext_dot(file_name_spec(path@)) is None,
        },
{
    let v = chars_of(path);
    let name = match last_slash(&v) {
        None => v,
        Some(i) => {
            assert(i < v.len());
            let s = string_of_range(&v, i + 1, v.len());
            chars_of(s.as_str())
        },
    };
    let mut dot: Vec<char> = Vec::new();
    dot.push('.');
    assert(dot@ == seq!['.']);
    match rfind_exec(&name, &dot) {
        Some(i) => {
            assert(occurs_at(name@, i as int, dot@));
            if i > 0 {
                (name, Some(i))
            } else {
                (name, None)
            }
        },
        None => (name, None),
    }
}

/// File name of `path` without its extension.
pub fn file_stem(path: &str) -> (r: String)
    ensures
        r@ == stem_spec(path@),
{
    let (name, dot) = file_name_and_dot(path);
    match dot {
        Some(i) => string_of_range(&name, 0, i),
        None => string_of_range_all(&name),
    }
}

fn string_of_range_all(v: &Vec<char>) -> (r: String)
    ensures
        r@ == v@,
{
    let r = string_of_range(v, 0, v.len());
    assert(v@.subrange(0, v@.len() as int) == v@);
    r
}

/// Whether `path` has the extension `json`.
pub fn has_json_extension(path: &str) -> (b: bool)
    ensures
        b == (extension_spec(path@) == Some("json"@)),
{
    let (name, dot) = file_name_and_dot(path);
    match dot {
        Some(i) => {
            assert(i < name.len());
            let ext = string_of_range(&name, i + 1, name.len());
            let a = chars_of(ext.as_str());
            let b = chars_of("json");
            chars_eq(&a, &b)
        },
        None => false,
    }
}

/// An `out/` file that may be a contract artifact: a `.json` file outside
/// the `build-info` directory.
pub open spec fn is_artifact_file_spec(path: Seq<char>) -> bool {
    extension_spec(path) == Some("json"@) && !crate::strings::contains_pat(path, "build-info"@)
}

/// Whether an `out/` file may be a contract artifact.
pub fn is_artifact_file(path: &str) -> (b: bool)
    ensures
        b == is_artifact_file_spec(path@),
{
    if !has_json_extension(path) {
        return false;
    }
    let v = chars_of(path);
    let pat = chars_of("build-info");
    match crate::strings::find_exec(&v, &pat) {
        Some(_) => false,
        None => true,
    }
}

/// What an artifact file declares: whether it parsed, whether its ABI is
/// non-empty, and `(nodeType, name)` of its top-level AST nodes when an AST
/// with a node list is present.
pub struct ArtifactDeclarations {
    /// The file parsed as JSON.
    pub parsed: bool,
    /// The `abi` array exists and is non-empty.
    pub abi_non_empty: bool,
    /// `(nodeType, name)` of each AST node, when the AST has a node list.
    pub nodes: Option<Vec<(String, Option<String>)>>,
}

/// Some node is a contract definition named `name`.
pub open spec fn declares_contract(nodes: Seq<(String, Option<String>)>, name: Seq<char>) -> bool {
    exists|i: int|
        0 <= i < nodes.len() && (#[trigger] nodes[i]).0@ == "ContractDefinition"@ && opt_view(nodes[i].1) == Some(name)
}

/// Whether an artifact is indexed under `name`: unparsable JSON is kept,
/// a non-empty ABI keeps it, artifacts without an AST node list are kept,
/// and otherwise one of its nodes must define a contract named `name`.
pub open spec fn declares_artifact_spec(d: ArtifactDeclarations, name: Seq<char>) -> bool {
    if !d.parsed {
        true
    } else if d.abi_non_empty {
        true
    } else {
        match d.nodes {
            None => true,
            Some(nodes) => declares_contract(nodes@, name),
        }
    }
}

/// Decide whether an artifact is indexed under `name`.
pub fn declares_artifact(d: &ArtifactDeclarations, name: &str) -> (b: bool)
    ensures
        b == declares_artifact_spec(*d, name@),
{
    if !d.parsed || d.abi_non_empty {
        return true;
    }
    match &d.nodes {
        None => true,
        Some(nodes) => {
            let nv = chars_of(name);
            let cd = chars_of("ContractDefinition");
            let mut i: usize = 0;
            while i < nodes.len()
                invariant
                    i <= nodes@.len(),
                    nv@ == name@,
                    cd@ == "ContractDefinition"@,
                    d.nodes == Some(*nodes),
                    d.parsed,
                    !d.abi_non_empty,
                    forall|j: int| 0 <= j < i ==> !((#[trigger] nodes@[j]).0@ == "ContractDefinition"@ && opt_view(nodes@[j].1) == Some(name@)),
                decreases nodes@.len() - i,
            {
                let t = chars_of(nodes[i].0.as_str());
                if chars_eq(&t, &cd) {
                    match &nodes[i].1 {
                        Some(n) => {
                            let x = chars_of(n.as_str());
                            if chars_eq(&x, &nv) {
                                assert(nodes@[i as int].0@ == "ContractDefinition"@ && opt_view(
                                    nodes@[i as int].1,
                                ) == Some(name@));
                                assert(declares_contract(nodes@, name@));
                                assert(d.nodes == Some(*nodes));
                                assert(declares_artifact_spec(*d, name@));
                                return true;
                            }
                        },
                        None => {},
                    }
                }
                i = i + 1;
            }
            false
        },
    }
}

// ---------------------------------------------------------------------------
// The index
// ---------------------------------------------------------------------------

/// One artifact file of the index.
#[derive(Debug, Clone)]
pub struct ArtifactEntry {
    /// Path of the artifact JSON file.
    pub path: String,
    /// Source path recorded in the artifact's AST (`absolutePath`).
    pub source_path: Option<String>,
}

/// A lightweight index mapping declaration names to artifact entries.
#[derive(Debug, Clone)]
pub struct ArtifactIndex {
    inner: Vec<(String, Vec<ArtifactEntry>)>,
}

/// Entries listed under `name` in an index table.
pub open spec fn index_lookup(t: Seq<(String, Vec<ArtifactEntry>)>, name: Seq<char>) -> Option<Seq<ArtifactEntry>>
    decreases t.len(),
{
    if t.len() == 0 {
        None
    } else if t[0].0@ == name {
        Some(t[0].1@)
    } else {
        index_lookup(t.drop_first(), name)
    }
}

/// The index after adding `entry` under `name` (appended to its list).
pub open spec fn index_add(m: Map<Seq<char>, Seq<ArtifactEntry>>, name: Seq<char>, entry: ArtifactEntry) -> Map<Seq<char>, Seq<ArtifactEntry>> {
    if m.contains_key(name) {
        m.insert(name, m[name].push(entry))
    } else {
        m.insert(name, seq![entry])
    }
}

/// The index as a map from names to entry lists.
pub open spec fn index_map(t: Seq<(String, Vec<ArtifactEntry>)>) -> Map<Seq<char>, Seq<ArtifactEntry>> {
    Map::new(|n: Seq<char>| index_lookup(t, n) is Some, |n: Seq<char>| index_lookup(t, n).unwrap())
}

fn position_of(t: &Vec<(String, Vec<ArtifactEntry>)>, name: &str) -> (r: Option<usize>)
    ensures
        match r {
            Some(i) => i < t@.len() && t@[i as int].0@ == name@ && index_lookup(t@, name@) == Some(t@[i as int].1@)
                && forall|j: int| 0 <= j < i ==> t@[j].0@ != name@,
            None => index_lookup(t@, name@) is None,
        },
{
    let nv = chars_of(name);
    let mut i: usize = 0;
    assert(t@.subrange(0, t@.len() as int) == t@);
    while i < t.len()
        invariant
            i <= t@.len(),
            nv@ == name@,
            index_lookup(t@, name@) == index_lookup(t@.subrange(i as int, t@.len() as int), name@),
            forall|j: int| 0 <= j < i ==> t@[j].0@ != name@,
        decreases t@.len() - i,
    {
        let ghost rest = t@.subrange(i as int, t@.len() as int);
        assert(rest[0] == t@[i as int]);
        assert(rest.drop_first() =~= t@.subrange(i + 1, t@.len() as int));
        let k = chars_of(t[i].0.as_str());
        if chars_eq(&k, &nv) {
            return Some(i);
        }
        i = i + 1;
    }
    None
}

impl ArtifactIndex {
    /// The index as a map from declaration names to their entries.
    pub closed spec fn view_map(&self) -> Map<Seq<char>, Seq<ArtifactEntry>> {
        index_map(self.inner@)
    }

    /// Each declaration name is listed once.
    pub closed spec fn wf(&self) -> bool {
        table_keys_distinct(self.inner@)
    }

    /// The declaration names, in the order in which they were first added.
    pub closed spec fn names(&self) -> Seq<Seq<char>> {
        self.inner@.map_values(|e: (String, Vec<ArtifactEntry>)| e.0@)
    }

    /// An empty index.
    pub fn new() -> (r: Self)
        ensures
            r.view_map() == Map::<Seq<char>, Seq<ArtifactEntry>>::empty(),
            r.wf(),
    {
        let r = ArtifactIndex { inner: Vec::new() };
        assert(r.view_map() =~= Map::<Seq<char>, Seq<ArtifactEntry>>::empty());
        r
    }

    /// Add an artifact under a declaration name.
    pub fn add(&mut self, name: &str, entry: ArtifactEntry)
        ensures
            final(self).view_map() == index_add(old(self).view_map(), name@, entry),
            old(self).wf() ==> final(self).wf(),
    {
        let ghost old_t = self.inner@;
        match position_of(&self.inner, name) {
            Some(i) => {
                let (key, mut list) = self.inner.remove(i);
                let ghost old_list = list@;
                list.push(entry);
                self.inner.insert(i, (key, list));
                proof {
                    assert(self.inner@ =~= old_t.update(i as int, (key, list)));
                    assert(old_list == old_t[i as int].1@);
                    assert(list@ == old_t[i as int].1@.push(entry));
                    assert forall|n: Seq<char>| #[trigger] index_lookup(self.inner@, n) == (if n == name@ {
                        Some(old_t[i as int].1@.push(entry))
                    } else {
                        index_lookup(old_t, n)
                    }) by {
                        lemma_lookup_update(old_t, i as int, (key, list), n);
                    }
                    assert(self.view_map() =~= index_add(index_map(old_t), name@, entry));
                    assert forall|a: int| 0 <= a < self.inner@.len() implies #[trigger] self.inner@[a].0@ == old_t[a].0@ by {
                        if a == i {
                            assert(self.inner@[a] == (key, list));
                        }
                    }
                }
            },
            None => {
                let mut list: Vec<ArtifactEntry> = Vec::new();
                list.push(entry);
                let key = String::from_str(name);
                let ghost item = (key, list);
                self.inner.push((key, list));
                proof {
                    assert forall|n: Seq<char>| #[trigger] index_lookup(self.inner@, n) == (if n == name@ {
                        Some(seq![entry])
                    } else {
                        index_lookup(old_t, n)
                    }) by {
                        lemma_lookup_push(old_t, item, n);
                        assert(item.1@ =~= seq![entry]);
                    }
                    assert(self.view_map() =~= index_add(index_map(old_t), name@, entry));
                    lemma_lookup_absent(old_t, name@);
                    assert(self.inner@ == old_t.push(item));
                }
            },
        }
    }

    /// Look up artifact entries by declaration name.
    pub fn get(&self, name: &str) -> (r: Option<&Vec<ArtifactEntry>>)
        ensures
            match r {
                Some(v) => self.view_map().contains_key(name@) && v@ == self.view_map()[name@],
                None => !self.view_map().contains_key(name@),
            },
    {
        match position_of(&self.inner, name) {
            Some(i) => Some(&self.inner[i].1),
            None => None,
        }
    }

    /// Return `true` if the index contains no entries.
    pub fn is_empty(&self) -> (b: bool)
        ensures
            b == (self.view_map().dom() == Set::<Seq<char>>::empty()),
    {
        if self.inner.len() == 0 {
            assert(self.view_map().dom() =~= Set::<Seq<char>>::empty());
            true
        } else {
            assert(index_lookup(self.inner@, self.inner@[0].0@) is Some);
            assert(self.view_map().dom().contains(self.inner@[0].0@));
            false
        }
    }

    /// Look up artifact entries by name; the error says the name is missing
    /// when it is absent or has no entries.
    pub fn try_get(&self, name: &str) -> (r: Result<Vec<ArtifactEntry>, String>)
        ensures
            self.view_map().contains_key(name@) && self.view_map()[name@].len() > 0 ==> (r matches Ok(v) && v@ == self.view_map()[name@]),
            !(self.view_map().contains_key(name@) && self.view_map()[name@].len() > 0) ==> (r matches Err(e) && e@ == "\""@ + name@ + "\" not found."@),
    {
        match self.get(name) {
            Some(entries) => {
                if entries.len() > 0 {
                    return Ok(copy_entries(entries));
                }
            },
            None => {},
        }
        let mut msg = String::from_str("\"");
        push_str(&mut msg, name);
        push_str(&mut msg, "\" not found.");
        Err(msg)
    }

    /// All artifact entries, name by name, in the order names were added.
    pub closed spec fn entries_spec(&self) -> Seq<ArtifactEntry> {
        concat_lists(self.inner@)
    }

    /// All artifact entries across all declarations.
    pub fn all_entries(&self) -> (r: Vec<ArtifactEntry>)
        ensures
            r@ == self.entries_spec(),
    {
        let mut out: Vec<ArtifactEntry> = Vec::new();
        let mut i: usize = 0;
        while i < self.inner.len()
            invariant
                i <= self.inner@.len(),
                out@ == concat_lists(self.inner@.take(i as int)),
            decreases self.inner@.len() - i,
        {
            let list = &self.inner[i].1;
            let mut j: usize = 0;
            let ghost before = out@;
            while j < list.len()
                invariant
                    j <= list@.len(),
                    list == &self.inner@[i as int].1,
                    out@ == before + list@.take(j as int),
                decreases list@.len() - j,
            {
                out.push(copy_entry(&list[j]));
                assert(list@.take(j + 1) == list@.take(j as int).push(list@[j as int]));
                assert(out@ =~= before + list@.take(j + 1));
                j = j + 1;
            }
            assert(list@.take(list@.len() as int) == list@);
            assert(self.inner@.take(i + 1).drop_last() == self.inner@.take(i as int));
            i = i + 1;
        }
        assert(self.inner@.take(self.inner@.len() as int) == self.inner@);
        out
    }

    /// Find an artifact listed under `name` whose recorded source path is
    /// `file` (file-qualified IDs such as `src/Foo.sol:Contract`).
    pub fn find_by_source_path(&self, file: &str, name: &str) -> (r: Option<String>)
        ensures
            match r {
                Some(p) => self.view_map().contains_key(name@) && exists|k: int|
                    0 <= k < self.view_map()[name@].len() && #[trigger] self.view_map()[name@][k].path@ == p@
                        && opt_view(self.view_map()[name@][k].source_path) == Some(file@)
                        && forall|m: int| 0 <= m < k ==> opt_view(#[trigger] self.view_map()[name@][m].source_path) != Some(file@),
                None => !self.view_map().contains_key(name@) || forall|m: int|
                    0 <= m < self.view_map()[name@].len() ==> opt_view(#[trigger] self.view_map()[name@][m].source_path) != Some(file@),
            },
            opt_view(r) == source_match(self.view_map(), name@, file@),
    {
        let list = match self.get(name) {
            Some(l) => l,
            None => {
                return None;
            },
        };
        let fv = chars_of(file);
        let mut k: usize = 0;
        assert(list@.subrange(0, list@.len() as int) =~= list@);
        while k < list.len()
            invariant
                k <= list@.len(),
                fv@ == file@,
                self.view_map().contains_key(name@),
                list@ == self.view_map()[name@],
                source_path_match(list@, file@) == source_path_match(list@.subrange(k as int, list@.len() as int), file@),
                forall|m: int| 0 <= m < k ==> opt_view(#[trigger] self.view_map()[name@][m].source_path) != Some(file@),
            decreases list@.len() - k,
        {
            let ghost rest = list@.subrange(k as int, list@.len() as int);
            assert(rest[0] == list@[k as int]);
            assert(rest.drop_first() =~= list@.subrange(k + 1, list@.len() as int));
            match &list[k].source_path {
                Some(sp) => {
                    let x = chars_of(sp.as_str());
                    if chars_eq(&x, &fv) {
                        let p = list[k].path.clone();
                        assert(self.view_map()[name@][k as int].path@ == p@ && opt_view(
                            self.view_map()[name@][k as int].source_path,
                        ) == Some(file@));
                        return Some(p);
                    }
                },
                None => {},
            }
            k = k + 1;
        }
        None
    }
}

/// All entries of an index table, list after list.
pub open spec fn concat_lists(t: Seq<(String, Vec<ArtifactEntry>)>) -> Seq<ArtifactEntry>
    decreases t.len(),
{
    if t.len() == 0 {
        Seq::empty()
    } else {
        concat_lists(t.drop_last()) + t.last().1@
    }
}

// ---------------------------------------------------------------------------
// Building the index
// ---------------------------------------------------------------------------

/// Whether a file of `out/` is indexed: a `.json` artifact, not a build-info
/// file, that declares the name of its file stem.
pub open spec fn indexable(e: ArtifactEntry, d: ArtifactDeclarations) -> bool {
    &&& extension_spec(e.path@) == Some("json"@)
    &&& find_spec(e.path@, "build-info"@) is None
    &&& declares_artifact_spec(d, stem_spec(e.path@))
}

/// The index built from the files of `out/`, in walk order: each indexed
/// artifact is added under its file stem.
pub open spec fn built_map(fs: Seq<(ArtifactEntry, ArtifactDeclarations)>) -> Map<Seq<char>, Seq<ArtifactEntry>>
    decreases fs.len(),
{
    if fs.len() == 0 {
        Map::empty()
    } else {
        let m = built_map(fs.drop_last());
        let (e, d) = fs.last();
        if indexable(e, d) {
            index_add(m, stem_spec(e.path@), e)
        } else {
            m
        }
    }
}

/// A built index never lists a name with no artifact, and each indexed
/// artifact is listed under its file stem.
pub proof fn lemma_built_index(fs: Seq<(ArtifactEntry, ArtifactDeclarations)>)
    ensures
        forall|k: Seq<char>| #[trigger] built_map(fs).contains_key(k) ==> built_map(fs)[k].len() > 0,
        forall|i: int| 0 <= i < fs.len() && indexable(fs[i].0, fs[i].1) ==> built_map(fs).contains_key(
            stem_spec((#[trigger] fs[i]).0.path@),
        ) && built_map(fs)[stem_spec(fs[i].0.path@)].contains(fs[i].0),
    decreases fs.len(),
{
    if fs.len() > 0 {
        let q = fs.drop_last();
        lemma_built_index(q);
        let m = built_map(q);
        let (e, d) = fs.last();
        let key = stem_spec(e.path@);
        assert forall|i: int| 0 <= i < fs.len() && indexable(fs[i].0, fs[i].1) implies built_map(fs).contains_key(
            stem_spec((#[trigger] fs[i]).0.path@),
        ) && built_map(fs)[stem_spec(fs[i].0.path@)].contains(fs[i].0) by {
            if i < fs.len() - 1 {
                assert(fs[i] == q[i]);
                let ki = stem_spec(q[i].0.path@);
                assert(m.contains_key(ki) && m[ki].contains(q[i].0));
                if indexable(e, d) && ki == key {
                    let x = choose|x: int| 0 <= x < m[ki].len() && m[ki][x] == q[i].0;
                    assert(m[ki].push(e)[x] == q[i].0);
                }
            } else {
                if m.contains_key(key) {
                    assert(m[key].push(e)[m[key].len() as int] == e);
                } else {
                    assert(seq![e][0] == e);
                }
            }
        }
    }
}

/// In an index whose lists are never empty, having no names and having no
/// entries are the same.
pub proof fn lemma_empty_index(idx: &ArtifactIndex)
    requires
        idx.wf(),
        forall|k: Seq<char>| #[trigger] idx.view_map().contains_key(k) ==> idx.view_map()[k].len() > 0,
    ensures
        (idx.view_map().dom() == Set::<Seq<char>>::empty()) <==> idx.entries_spec().len() == 0,
{
    lemma_all_entries(idx);
    let ks = idx.names();
    let m = idx.view_map();
    if ks.len() > 0 {
        assert(ks.to_set().contains(ks[0]));
        assert(m.dom().contains(ks[0]));
        lemma_lists_of_len(m, ks);
    } else {
        assert(ks.to_set() =~= Set::<Seq<char>>::empty());
    }
}

proof fn lemma_lists_of_len(m: Map<Seq<char>, Seq<ArtifactEntry>>, ks: Seq<Seq<char>>)
    requires
        ks.len() > 0,
        forall|i: int| 0 <= i < ks.len() ==> m.contains_key(#[trigger] ks[i]) && m[ks[i]].len() > 0,
    ensures
        lists_of(m, ks).len() > 0,
{
    assert(m.contains_key(ks[ks.len() - 1]));
}

/// The index of the files of `out/` (see [`built_map`]).
pub fn build_index(files: &Vec<(ArtifactEntry, ArtifactDeclarations)>) -> (r: ArtifactIndex)
    ensures
        r.wf(),
        r.view_map() == built_map(files@),
{
    let mut idx = ArtifactIndex::new();
    let bi = chars_of("build-info");
    let mut i: usize = 0;
    assert(files@.take(0) =~= Seq::<(ArtifactEntry, ArtifactDeclarations)>::empty());
    while i < files.len()
        invariant
            i <= files@.len(),
            idx.wf(),
            bi@ == "build-info"@,
            idx.view_map() == built_map(files@.take(i as int)),
        decreases files@.len() - i,
    {
        assert(files@.take(i + 1).drop_last() =~= files@.take(i as int));
        assert(files@.take(i + 1).last() == files@[i as int]);
        let e = &files[i].0;
        let d = &files[i].1;
        if has_json_extension(e.path.as_str()) && find_exec(&chars_of(e.path.as_str()), &bi).is_none() {
            let stem = file_stem(e.path.as_str());
            if declares_artifact(d, stem.as_str()) {
                idx.add(stem.as_str(), copy_entry(e));
            }
        }
        i = i + 1;
    }
    assert(files@.take(files@.len() as int) =~= files@);
    idx
}

/// The path of the first entry of `es` whose recorded source is `file`.
pub open spec fn source_path_match(es: Seq<ArtifactEntry>, file: Seq<char>) -> Option<Seq<char>>
    decreases es.len(),
{
    if es.len() == 0 {
        None
    } else if opt_view(es[0].source_path) == Some(file) {
        Some(es[0].path@)
    } else {
        source_path_match(es.drop_first(), file)
    }
}

/// The path of the first artifact listed under `name` whose recorded source
/// is `file`.
pub open spec fn source_match(m: Map<Seq<char>, Seq<ArtifactEntry>>, name: Seq<char>, file: Seq<char>) -> Option<Seq<char>> {
    if m.contains_key(name) {
        source_path_match(m[name], file)
    } else {
        None
    }
}

/// Each name is listed once in an index table.
pub open spec fn table_keys_distinct(t: Seq<(String, Vec<ArtifactEntry>)>) -> bool {
    forall|i: int, j: int| 0 <= i < j < t.len() ==> (#[trigger] t[i]).0@ != (#[trigger] t[j]).0@
}

/// The lists under the names `ks` of `m`, one after another.
pub open spec fn lists_of(m: Map<Seq<char>, Seq<ArtifactEntry>>, ks: Seq<Seq<char>>) -> Seq<ArtifactEntry>
    decreases ks.len(),
{
    if ks.len() == 0 {
        Seq::empty()
    } else {
        lists_of(m, ks.drop_last()) + m[ks.last()]
    }
}

proof fn lemma_lookup_absent(t: Seq<(String, Vec<ArtifactEntry>)>, n: Seq<char>)
    requires
        index_lookup(t, n) is None,
    ensures
        forall|i: int| 0 <= i < t.len() ==> (#[trigger] t[i]).0@ != n,
    decreases t.len(),
{
    if t.len() > 0 {
        lemma_lookup_absent(t.drop_first(), n);
        assert forall|i: int| 0 <= i < t.len() implies (#[trigger] t[i]).0@ != n by {
            if i > 0 {
                assert(t[i] == t.drop_first()[i - 1]);
            }
        }
    }
}

proof fn lemma_lookup_first(t: Seq<(String, Vec<ArtifactEntry>)>, i: int)
    requires
        0 <= i < t.len(),
        forall|j: int| 0 <= j < i ==> (#[trigger] t[j]).0@ != t[i].0@,
    ensures
        index_lookup(t, t[i].0@) == Some(t[i].1@),
    decreases i,
{
    if i > 0 {
        assert forall|j: int| 0 <= j < i - 1 implies (#[trigger] t.drop_first()[j]).0@ != t.drop_first()[i - 1].0@ by {
            assert(t.drop_first()[j] == t[j + 1]);
        }
        lemma_lookup_first(t.drop_first(), i - 1);
        assert(t.drop_first()[i - 1] == t[i]);
        assert(t[0].0@ != t[i].0@);
    }
}

proof fn lemma_lookup_some(t: Seq<(String, Vec<ArtifactEntry>)>, n: Seq<char>)
    requires
        index_lookup(t, n) is Some,
    ensures
        exists|i: int| 0 <= i < t.len() && (#[trigger] t[i]).0@ == n,
    decreases t.len(),
{
    if t[0].0@ != n {
        lemma_lookup_some(t.drop_first(), n);
        let i = choose|i: int| 0 <= i < t.drop_first().len() && (#[trigger] t.drop_first()[i]).0@ == n;
        assert(t[i + 1] == t.drop_first()[i]);
    }
}

proof fn lemma_concat_prefix(t: Seq<(String, Vec<ArtifactEntry>)>, m: Map<Seq<char>, Seq<ArtifactEntry>>, k: int)
    requires
        0 <= k <= t.len(),
        forall|i: int| 0 <= i < t.len() ==> #[trigger] m.contains_key(t[i].0@) && m[t[i].0@] == t[i].1@,
    ensures
        concat_lists(t.take(k)) == lists_of(m, t.map_values(|e: (String, Vec<ArtifactEntry>)| e.0@).take(k)),
    decreases k,
{
    let ks = t.map_values(|e: (String, Vec<ArtifactEntry>)| e.0@);
    if k > 0 {
        lemma_concat_prefix(t, m, k - 1);
        assert(t.take(k).drop_last() =~= t.take(k - 1));
        assert(ks.take(k).drop_last() =~= ks.take(k - 1));
        assert(ks.take(k).last() == t[k - 1].0@);
        assert(m.contains_key(t[k - 1].0@));
    } else {
        assert(ks.take(0) =~= Seq::<Seq<char>>::empty());
    }
}

/// Every entry of an index, listed by `all_entries`, is an entry of the list
/// that `get` gives for one of its names: the names are distinct and are the
/// keys of the index, and the entries are the lists under those names, name
/// by name, each list whole and in order.
pub proof fn lemma_all_entries(idx: &ArtifactIndex)
    requires
        idx.wf(),
    ensures
        idx.names().no_duplicates(),
        idx.names().to_set() == idx.view_map().dom(),
        idx.entries_spec() == lists_of(idx.view_map(), idx.names()),
{
    let t = idx.inner@;
    let ks = idx.names();
    let m = idx.view_map();
    assert forall|i: int| 0 <= i < t.len() implies #[trigger] m.contains_key(t[i].0@) && m[t[i].0@] == t[i].1@ by {
        lemma_lookup_first(t, i);
    }
    assert forall|i: int, j: int| 0 <= i < ks.len() && 0 <= j < ks.len() && i != j implies ks[i] != ks[j] by {
        if i < j {
            assert(t[i].0@ != t[j].0@);
        } else {
            assert(t[j].0@ != t[i].0@);
        }
    }
    assert forall|n: Seq<char>| ks.to_set().contains(n) <==> #[trigger] m.dom().contains(n) by {
        if m.dom().contains(n) {
            lemma_lookup_some(t, n);
            let i = choose|i: int| 0 <= i < t.len() && (#[trigger] t[i]).0@ == n;
            assert(ks[i] == n);
        }
        if ks.to_set().contains(n) {
            let i = choose|i: int| 0 <= i < ks.len() && ks[i] == n;
            assert(m.contains_key(t[i].0@));
        }
    }
    assert(ks.to_set() =~= m.dom());
    lemma_concat_prefix(t, m, t.len() as int);
    assert(t.take(t.len() as int) =~= t);
    assert(ks.take(ks.len() as int) =~= ks);
}

proof fn lemma_lookup_update(t: Seq<(String, Vec<ArtifactEntry>)>, i: int, x: (String, Vec<ArtifactEntry>), n: Seq<char>)
    requires
        0 <= i < t.len(),
        x.0@ == t[i].0@,
        forall|j: int| 0 <= j < i ==> t[j].0@ != t[i].0@,
    ensures
        index_lookup(t.update(i, x), n) == (if n == t[i].0@ {
            Some(x.1@)
        } else {
            index_lookup(t, n)
        }),
    decreases t.len(),
{
    if i > 0 {
        assert(t.update(i, x).drop_first() =~= t.drop_first().update(i - 1, x));
        assert(t[0].0@ != t[i].0@);
        assert forall|j: int| 0 <= j < i - 1 implies (#[trigger] t.drop_first()[j]).0@ != t.drop_first()[i - 1].0@ by {
            assert(t.drop_first()[j] == t[j + 1]);
        }
        lemma_lookup_update(t.drop_first(), i - 1, x, n);
        assert(t.update(i, x)[0] == t[0]);
    } else {
        assert(t.update(0, x).drop_first() =~= t.drop_first());
        assert(t.update(0, x)[0] == x);
    }
}

proof fn lemma_lookup_push(t: Seq<(String, Vec<ArtifactEntry>)>, x: (String, Vec<ArtifactEntry>), n: Seq<char>)
    requires
        index_lookup(t, x.0@) is None,
    ensures
        index_lookup(t.push(x), n) == (if n == x.0@ {
            Some(x.1@)
        } else {
            index_lookup(t, n)
        }),
    decreases t.len(),
{
    if t.len() > 0 {
        assert(t.push(x).drop_first() =~= t.drop_first().push(x));
        lemma_lookup_push(t.drop_first(), x, n);
    } else {
        assert(t.push(x).drop_first() =~= Seq::<(String, Vec<ArtifactEntry>)>::empty());
        assert(t.push(x)[0] == x);
        assert(index_lookup(Seq::<(String, Vec<ArtifactEntry>)>::empty(), n) is None);
    }
}

/// The qualified `path:name` of an artifact for suggestions: the recorded
/// source path when there is one, else the artifact's directory name.
pub open spec fn qualified_name_spec(e: ArtifactEntry, name: Seq<char>) -> Seq<char> {
    match e.source_path {
        Some(s) => s@ + ":"@ + name,
        None => parent_name_spec(e.path@) + ":"@ + name,
    }
}

/// Render an artifact as `path:name` for suggestions.
pub fn qualified_name(e: &ArtifactEntry, name: &str) -> (r: String)
    ensures
        r@ == qualified_name_spec(*e, name@),
{
    let mut out = match &e.source_path {
        Some(s) => s.clone(),
        None => parent_name(e.path.as_str()),
    };
    push_str(&mut out, ":");
    push_str(&mut out, name);
    out
}

/// A copy of an entry.
pub fn copy_entry(e: &ArtifactEntry) -> (r: ArtifactEntry)
    ensures
        r == *e,
{
    ArtifactEntry {
        path: e.path.clone(),
        source_path: match &e.source_path {
            Some(s) => Some(s.clone()),
            None => None,
        },
    }
}

/// A copy of a list of entries.
pub fn copy_entries(v: &Vec<ArtifactEntry>) -> (r: Vec<ArtifactEntry>)
    ensures
        r@ == v@,
{
    let mut out: Vec<ArtifactEntry> = Vec::new();
    let mut i: usize = 0;
    while i < v.len()
        invariant
            i <= v@.len(),
            out@ == v@.take(i as int),
        decreases v@.len() - i,
    {
        out.push(copy_entry(&v[i]));
        assert(v@.take(i + 1) == v@.take(i as int).push(v@[i as int]));
        i = i + 1;
    }
    assert(v@.take(v@.len() as int) == v@);
    out
}

} // verus!
