//! Choosing what a command works on: the artifact an ID names for each
//! command, with the suggestions a command prints when a name alone is
//! ambiguous, and the declaration a `path:name` or bare name selects.
use vstd::prelude::*;
use crate::artifact_index::{
    copy_entry, file_stem, parent_path, parent_spec, stem_spec, parent_name, parent_name_spec, qualified_name, qualified_name_spec, source_match, ArtifactEntry,
    ArtifactIndex,
};
use crate::call_graph::{artifact_not_found_spec, opt_str};
use crate::inheritance::{pair_list_view, inheritance_pairs, render_inheritance, InheritanceNode};
use crate::foundry_config::{ast_enabled, ast_message, storage_layout_enabled, storage_layout_message, toml_document, validate_config, validate_storage_layout_config};
use crate::listing::LightNode;
use crate::order::{dedup_spec, dedup_texts, is_stable_order, sort_texts, sorted_order, stable_order, texts_sorted, texts_view};
use crate::resolver::{relative_path, relative_spec};
use crate::strings::{chars_eq, chars_of, decimal, decimal_exec, join_spec, join_texts, push_str, rfind_exec, rfind_spec, string_of_range};

verus! {

// ---------------------------------------------------------------------------
// Suggestions for an ambiguous name
// ---------------------------------------------------------------------------

/// How a suggestion names a candidate: `path:name` by its recorded source
/// (or its directory), or always by its directory.
pub open spec fn candidate_name(e: ArtifactEntry, name: Seq<char>, by_dir: bool) -> Seq<char> {
    if by_dir {
        parent_name_spec(e.path@) + ":"@ + name
    } else {
        qualified_name_spec(e, name)
    }
}

pub open spec fn entry_paths(es: Seq<ArtifactEntry>) -> Seq<Seq<char>> {
    es.map_values(|e: ArtifactEntry| e.path@)
}

/// The suggestion lines for the first `k` candidates in order `o`.
pub open spec fn candidate_lines(es: Seq<ArtifactEntry>, o: Seq<usize>, name: Seq<char>, command: Seq<char>, by_dir: bool, k: int) -> Seq<char>
    decreases k,
{
    if k <= 0 || k > o.len() {
        Seq::empty()
    } else {
        candidate_lines(es, o, name, command, by_dir, k - 1) + "\n"@ + command + " "@ + candidate_name(es[o[k - 1] as int], name, by_dir)
    }
}

/// The message for a name that several artifacts define: the count, then a
/// suggested command per candidate, sorted by artifact path.
pub open spec fn candidates_message_spec(es: Seq<ArtifactEntry>, name: Seq<char>, command: Seq<char>, by_dir: bool) -> Seq<char> {
    let o = sorted_order(entry_paths(es), true);
    "found "@ + decimal(es.len()) + " \""@ + name + "\"\n\nSelect one of the following:\n"@
        + candidate_lines(es, o, name, command, by_dir, o.len() as int) + "\n"@
}

/// The message for a name that several artifacts define.
pub fn candidates_message(candidates: &Vec<ArtifactEntry>, name: &str, command: &str, by_dir: bool) -> (r: String)
    ensures
        r@ == candidates_message_spec(candidates@, name@, command@, by_dir),
{
    let mut keys: Vec<Vec<char>> = Vec::new();
    let mut i: usize = 0;
    while i < candidates.len()
        invariant
            i <= candidates@.len(),
            keys@.len() == i,
            keys@.map_values(|k: Vec<char>| k@) == entry_paths(candidates@).take(i as int),
        decreases candidates@.len() - i,
    {
        let kv = chars_of(candidates[i].path.as_str());
        let ghost before = keys@;
        keys.push(kv);
        assert(keys@ == before.push(kv));
        assert(keys@.map_values(|k: Vec<char>| k@) =~= entry_paths(candidates@).take(i + 1));
        i = i + 1;
    }
    assert(entry_paths(candidates@).take(candidates@.len() as int) =~= entry_paths(candidates@));
    let order = stable_order(&keys, true);
    let ghost o = order@;
    let mut msg = String::from_str("found ");
    let n = decimal_exec(candidates.len());
    push_str(&mut msg, n.as_str());
    push_str(&mut msg, " \"");
    push_str(&mut msg, name);
    push_str(&mut msg, "\"\n\nSelect one of the following:\n");
    let ghost head = msg@;
    let mut k: usize = 0;
    while k < order.len()
        invariant
            o == order@,
            is_stable_order(entry_paths(candidates@), o, true),
            o.len() == candidates@.len(),
            k <= o.len(),
            msg@ == head + candidate_lines(candidates@, o, name@, command@, by_dir, k as int),
        decreases o.len() - k,
    {
        let e = &candidates[order[k]];
        push_str(&mut msg, "\n");
        push_str(&mut msg, command);
        push_str(&mut msg, " ");
        if by_dir {
            let p = parent_name(e.path.as_str());
            push_str(&mut msg, p.as_str());
            push_str(&mut msg, ":");
            push_str(&mut msg, name);
        } else {
            let q = qualified_name(e, name);
            push_str(&mut msg, q.as_str());
        }
        assert(msg@ =~= head + candidate_lines(candidates@, o, name@, command@, by_dir, k + 1));
        k = k + 1;
    }
    push_str(&mut msg, "\n");
    msg
}

// ---------------------------------------------------------------------------
// The artifact an ID names, command by command
// ---------------------------------------------------------------------------

/// The artifacts listed under `name`.
pub open spec fn listed_under(m: Map<Seq<char>, Seq<ArtifactEntry>>, name: Seq<char>) -> Seq<ArtifactEntry> {
    if m.contains_key(name) {
        m[name]
    } else {
        Seq::empty()
    }
}

/// The artifact a bare name names: none is an error, one is it, several
/// are an error that suggests `command` for each.
pub open spec fn by_name_spec(m: Map<Seq<char>, Seq<ArtifactEntry>>, name: Seq<char>, command: Seq<char>, by_dir: bool) -> Result<Seq<char>, Seq<char>> {
    let c = listed_under(m, name);
    if c.len() == 0 {
        Err(artifact_not_found_spec(name))
    } else if c.len() == 1 {
        Ok(c[0].path@)
    } else {
        Err(candidates_message_spec(c, name, command, by_dir))
    }
}

pub open spec fn result_view(r: Result<String, String>) -> Result<Seq<char>, Seq<char>> {
    match r {
        Ok(s) => Ok(s@),
        Err(e) => Err(e@),
    }
}

fn listed_copy(index: &ArtifactIndex, name: &str) -> (r: Vec<ArtifactEntry>)
    ensures
        r@ == listed_under(index.view_map(), name@),
{
    match index.get(name) {
        Some(list) => {
            let mut out: Vec<ArtifactEntry> = Vec::new();
            let mut i: usize = 0;
            while i < list.len()
                invariant
                    i <= list@.len(),
                    out@ == list@.take(i as int),
                decreases list@.len() - i,
            {
                out.push(copy_entry(&list[i]));
                assert(out@ =~= list@.take(i + 1));
                i = i + 1;
            }
            assert(list@.take(list@.len() as int) =~= list@);
            out
        },
        None => Vec::new(),
    }
}

fn not_found(name: &str) -> (e: String)
    ensures
        e@ == artifact_not_found_spec(name@),
{
    let mut e = String::from_str("\"");
    push_str(&mut e, name);
    push_str(&mut e, "\" not found.");
    e
}

fn by_name(index: &ArtifactIndex, name: &str, command: &str, by_dir: bool) -> (r: Result<String, String>)
    ensures
        result_view(r) == by_name_spec(index.view_map(), name@, command@, by_dir),
{
    let c = listed_copy(index, name);
    if c.len() == 0 {
        Err(not_found(name))
    } else if c.len() == 1 {
        Ok(c[0].path.clone())
    } else {
        Err(candidates_message(&c, name, command, by_dir))
    }
}

/// The artifact the external-functions command reads: with a file, the
/// artifact at `out/<file>/<name>.json` when it exists (`direct`), else the
/// first listed under the name whose recorded source is the file, else the
/// direct path all the same; by name, see [`by_name_spec`].
pub open spec fn external_functions_artifact_spec(
    m: Map<Seq<char>, Seq<ArtifactEntry>>,
    name: Seq<char>,
    file: Option<Seq<char>>,
    direct: Seq<char>,
    direct_exists: bool,
) -> Result<Seq<char>, Seq<char>> {
    match file {
        Some(f) => if direct_exists {
            Ok(direct)
        } else {
            match source_match(m, name, f) {
                Some(p) => Ok(p),
                None => Ok(direct),
            }
        },
        None => by_name_spec(m, name, "solray inspect external-functions"@, false),
    }
}

/// Resolve the artifact for the external-functions command.
pub fn external_functions_artifact(index: &ArtifactIndex, name: &str, file: Option<&str>, direct: &str, direct_exists: bool) -> (r: Result<String, String>)
    ensures
        result_view(r) == external_functions_artifact_spec(index.view_map(), name@, opt_str(file), direct@, direct_exists),
{
    match file {
        Some(f) => {
            if direct_exists {
                return Ok(String::from_str(direct));
            }
            match index.find_by_source_path(f, name) {
                Some(p) => Ok(p),
                None => Ok(String::from_str(direct)),
            }
        },
        None => by_name(index, name, "solray inspect external-functions", false),
    }
}

/// The artifact the interface generator reads: with a file, the direct
/// artifact when it exists, else the first listed under the name whose
/// recorded source is the file, else not found; by name, see
/// [`by_name_spec`].
pub open spec fn interface_artifact_spec(
    m: Map<Seq<char>, Seq<ArtifactEntry>>,
    name: Seq<char>,
    file: Option<Seq<char>>,
    direct: Seq<char>,
    direct_exists: bool,
) -> Result<Seq<char>, Seq<char>> {
    match file {
        Some(f) => if direct_exists {
            Ok(direct)
        } else {
            match source_match(m, name, f) {
                Some(p) => Ok(p),
                None => Err(artifact_not_found_spec(name)),
            }
        },
        None => by_name_spec(m, name, "solray gen interface"@, false),
    }
}

/// Resolve the artifact for the interface generator.
pub fn interface_artifact(index: &ArtifactIndex, name: &str, file: Option<&str>, direct: &str, direct_exists: bool) -> (r: Result<String, String>)
    ensures
        result_view(r) == interface_artifact_spec(index.view_map(), name@, opt_str(file), direct@, direct_exists),
{
    match file {
        Some(f) => {
            if direct_exists {
                return Ok(String::from_str(direct));
            }
            match index.find_by_source_path(f, name) {
                Some(p) => Ok(p),
                None => Err(not_found(name)),
            }
        },
        None => by_name(index, name, "solray gen interface", false),
    }
}

/// The message for a direct artifact path that does not exist.
pub open spec fn missing_artifact_spec(path: Seq<char>) -> Seq<char> {
    "artifact `"@ + path + "` not found"@
}

/// The artifact the modifiers command reads: with a file, the direct
/// artifact, which must exist; by name, see [`by_name_spec`], the
/// suggestions naming each candidate by its directory.
pub open spec fn modifiers_artifact_spec(
    m: Map<Seq<char>, Seq<ArtifactEntry>>,
    name: Seq<char>,
    file: Option<Seq<char>>,
    direct: Seq<char>,
    direct_exists: bool,
) -> Result<Seq<char>, Seq<char>> {
    match file {
        Some(_) => if direct_exists {
            Ok(direct)
        } else {
            Err(missing_artifact_spec(direct))
        },
        None => by_name_spec(m, name, "hawk inspect modifiers"@, true),
    }
}

/// Resolve the artifact for the modifiers command.
pub fn modifiers_artifact(index: &ArtifactIndex, name: &str, file: Option<&str>, direct: &str, direct_exists: bool) -> (r: Result<String, String>)
    ensures
        result_view(r) == modifiers_artifact_spec(index.view_map(), name@, opt_str(file), direct@, direct_exists),
{
    match file {
        Some(_) => {
            if direct_exists {
                Ok(String::from_str(direct))
            } else {
                let mut e = String::from_str("artifact `");
                push_str(&mut e, direct);
                push_str(&mut e, "` not found");
                Err(e)
            }
        },
        None => by_name(index, name, "hawk inspect modifiers", true),
    }
}

/// How the inheritance-graph command names a candidate: the directory of
/// its artifact under `out/`, then the artifact's file stem.
pub open spec fn out_relative_name(e: ArtifactEntry, out_dir: Seq<char>) -> Seq<char> {
    parent_spec(relative_spec(e.path@, out_dir)) + ":"@ + stem_spec(e.path@)
}

pub open spec fn out_relative_lines(es: Seq<ArtifactEntry>, o: Seq<usize>, out_dir: Seq<char>, k: int) -> Seq<char>
    decreases k,
{
    if k <= 0 || k > o.len() {
        Seq::empty()
    } else {
        out_relative_lines(es, o, out_dir, k - 1) + "\nhawk inspect inheritance-graph "@ + out_relative_name(es[o[k - 1] as int], out_dir)
    }
}

/// The artifact the inheritance-graph command reads: with a file, the
/// direct artifact, which must exist; by name, the only one listed, not
/// found when none is, and when several are, an error suggesting each by
/// its place under `out_dir`, sorted by path.
pub open spec fn inheritance_graph_artifact_spec(
    m: Map<Seq<char>, Seq<ArtifactEntry>>,
    name: Seq<char>,
    file: Option<Seq<char>>,
    direct: Seq<char>,
    direct_exists: bool,
    out_dir: Seq<char>,
) -> Result<Seq<char>, Seq<char>> {
    match file {
        Some(_) => if direct_exists {
            Ok(direct)
        } else {
            Err(missing_artifact_spec(direct))
        },
        None => {
            let c = listed_under(m, name);
            if c.len() == 0 {
                Err(artifact_not_found_spec(name))
            } else if c.len() == 1 {
                Ok(c[0].path@)
            } else {
                let o = sorted_order(entry_paths(c), true);
                Err("found "@ + decimal(c.len()) + " \""@ + name + "\"\n\nSelect one of the following:\n"@
                    + out_relative_lines(c, o, out_dir, o.len() as int) + "\n"@)
            }
        },
    }
}

/// Resolve the artifact for the inheritance-graph command.
pub fn inheritance_graph_artifact(
    index: &ArtifactIndex,
    name: &str,
    file: Option<&str>,
    direct: &str,
    direct_exists: bool,
    out_dir: &str,
) -> (r: Result<String, String>)
    ensures
        result_view(r) == inheritance_graph_artifact_spec(index.view_map(), name@, opt_str(file), direct@, direct_exists, out_dir@),
{
    match file {
        Some(_) => {
            if direct_exists {
                return Ok(String::from_str(direct));
            }
            let mut e = String::from_str("artifact `");
            push_str(&mut e, direct);
            push_str(&mut e, "` not found");
            Err(e)
        },
        None => {
            let c = listed_copy(index, name);
            if c.len() == 0 {
                return Err(not_found(name));
            }
            if c.len() == 1 {
                return Ok(c[0].path.clone());
            }
            let mut keys: Vec<Vec<char>> = Vec::new();
            let mut i: usize = 0;
            while i < c.len()
                invariant
                    i <= c@.len(),
                    keys@.len() == i,
                    keys@.map_values(|k: Vec<char>| k@) == entry_paths(c@).take(i as int),
                decreases c@.len() - i,
            {
                let kv = chars_of(c[i].path.as_str());
                let ghost before = keys@;
                keys.push(kv);
                assert(keys@ == before.push(kv));
                assert(keys@.map_values(|k: Vec<char>| k@) =~= entry_paths(c@).take(i + 1));
                i = i + 1;
            }
            assert(entry_paths(c@).take(c@.len() as int) =~= entry_paths(c@));
            let order = stable_order(&keys, true);
            let ghost o = order@;
            let mut msg = String::from_str("found ");
            let n = decimal_exec(c.len());
            push_str(&mut msg, n.as_str());
            push_str(&mut msg, " \"");
            push_str(&mut msg, name);
            push_str(&mut msg, "\"\n\nSelect one of the following:\n");
            let ghost head = msg@;
            let mut k: usize = 0;
            while k < order.len()
                invariant
                    o == order@,
                    is_stable_order(entry_paths(c@), o, true),
                    o.len() == c@.len(),
                    k <= o.len(),
                    msg@ == head + out_relative_lines(c@, o, out_dir@, k as int),
                decreases o.len() - k,
            {
                let e = &c[order[k]];
                let rel = relative_path(e.path.as_str(), out_dir);
                let dir = parent_path(rel.as_str());
                let stem = file_stem(e.path.as_str());
                push_str(&mut msg, "\nhawk inspect inheritance-graph ");
                push_str(&mut msg, dir.as_str());
                push_str(&mut msg, ":");
                push_str(&mut msg, stem.as_str());
                assert(msg@ =~= head + out_relative_lines(c@, o, out_dir@, k + 1));
                k = k + 1;
            }
            push_str(&mut msg, "\n");
            Err(msg)
        },
    }
}

/// The artifact the call-path command reads: with a file, the direct
/// artifact when it exists, else not found; by name, the first listed under
/// it, or not found when none is.
pub open spec fn call_path_artifact_spec(
    m: Map<Seq<char>, Seq<ArtifactEntry>>,
    name: Seq<char>,
    file: Option<Seq<char>>,
    direct: Seq<char>,
    direct_exists: bool,
) -> Result<Seq<char>, Seq<char>> {
    match file {
        Some(_) => if direct_exists {
            Ok(direct)
        } else {
            Err(artifact_not_found_spec(name))
        },
        None => {
            let c = listed_under(m, name);
            if c.len() == 0 {
                Err(artifact_not_found_spec(name))
            } else {
                Ok(c[0].path@)
            }
        },
    }
}

/// Resolve the artifact for the call-path command.
pub fn call_path_artifact(index: &ArtifactIndex, name: &str, file: Option<&str>, direct: &str, direct_exists: bool) -> (r: Result<String, String>)
    ensures
        result_view(r) == call_path_artifact_spec(index.view_map(), name@, opt_str(file), direct@, direct_exists),
{
    match file {
        Some(_) => {
            if direct_exists {
                Ok(String::from_str(direct))
            } else {
                Err(not_found(name))
            }
        },
        None => {
            let c = listed_copy(index, name);
            if c.len() == 0 {
                Err(not_found(name))
            } else {
                Ok(c[0].path.clone())
            }
        },
    }
}

/// The artifact the storage-layout command reads: with a file, the direct
/// artifact when it exists, else the first listed under the name whose
/// recorded source is the file, else the direct path all the same; by name,
/// see [`by_name_spec`].
pub open spec fn storage_layout_artifact_spec(
    m: Map<Seq<char>, Seq<ArtifactEntry>>,
    name: Seq<char>,
    file: Option<Seq<char>>,
    direct: Seq<char>,
    direct_exists: bool,
) -> Result<Seq<char>, Seq<char>> {
    match file {
        Some(f) => if direct_exists {
            Ok(direct)
        } else {
            match source_match(m, name, f) {
                Some(p) => Ok(p),
                None => Ok(direct),
            }
        },
        None => by_name_spec(m, name, "solray inspect storage-layout"@, false),
    }
}

/// Resolve the artifact for the storage-layout command.
pub fn storage_layout_artifact_for(index: &ArtifactIndex, name: &str, file: Option<&str>, direct: &str, direct_exists: bool) -> (r: Result<String, String>)
    ensures
        result_view(r) == storage_layout_artifact_spec(index.view_map(), name@, opt_str(file), direct@, direct_exists),
{
    match file {
        Some(f) => {
            if direct_exists {
                return Ok(String::from_str(direct));
            }
            match index.find_by_source_path(f, name) {
                Some(p) => Ok(p),
                None => Ok(String::from_str(direct)),
            }
        },
        None => storage_layout_artifact(index, name),
    }
}

/// The artifact the storage-layout command reads for a bare name: see
/// [`by_name_spec`].
pub fn storage_layout_artifact(index: &ArtifactIndex, name: &str) -> (r: Result<String, String>)
    ensures
        result_view(r) == by_name_spec(index.view_map(), name@, "solray inspect storage-layout"@, false),
{
    by_name(index, name, "solray inspect storage-layout", false)
}

// ---------------------------------------------------------------------------
// Declarations
// ---------------------------------------------------------------------------

/// The kind of a top-level declaration.
#[derive(Debug, Clone, Copy, PartialEq, Eq, Structural)]
pub enum DeclarationKind {
    Contract,
    AbstractContract,
    Interface,
    Library,
}

/// A top-level declaration: its name, kind and the source file its AST
/// records.
#[derive(Debug)]
pub struct Declaration {
    pub name: String,
    pub kind: DeclarationKind,
    pub file: String,
}

pub open spec fn decl_view(d: Declaration) -> (Seq<char>, DeclarationKind, Seq<char>) {
    (d.name@, d.kind, d.file@)
}

pub open spec fn decls_view(ds: Seq<Declaration>) -> Seq<(Seq<char>, DeclarationKind, Seq<char>)> {
    ds.map_values(|d: Declaration| decl_view(d))
}

/// The kind of a contract definition node.
pub open spec fn kind_of(n: LightNode) -> DeclarationKind {
    match n.contract_kind {
        Some(k) => if k@ == "interface"@ {
            DeclarationKind::Interface
        } else if k@ == "library"@ {
            DeclarationKind::Library
        } else if n.is_abstract {
            DeclarationKind::AbstractContract
        } else {
            DeclarationKind::Contract
        },
        None => if n.is_abstract {
            DeclarationKind::AbstractContract
        } else {
            DeclarationKind::Contract
        },
    }
}

/// A contract definition named `stem`.
pub open spec fn is_stem_contract(n: LightNode, stem: Seq<char>) -> bool {
    n.node_type@ == "ContractDefinition"@ && (n.name matches Some(x) && x@ == stem)
}

/// Index of the first of `nodes` that defines a contract named `stem`.
pub open spec fn stem_contract(nodes: Seq<LightNode>, stem: Seq<char>, i: int) -> Option<int>
    decreases nodes.len() - i,
{
    if i < 0 || i >= nodes.len() {
        None
    } else if is_stem_contract(nodes[i], stem) {
        Some(i)
    } else {
        stem_contract(nodes, stem, i + 1)
    }
}

/// The declaration an artifact named `stem` gives: its first contract
/// definition named `stem`, with that contract's kind and the AST's recorded
/// file.
pub open spec fn declaration_spec(stem: Seq<char>, nodes: Seq<LightNode>, file: Seq<char>) -> Option<(Seq<char>, DeclarationKind, Seq<char>)> {
    match stem_contract(nodes, stem, 0) {
        Some(i) => Some((stem, kind_of(nodes[i]), file)),
        None => None,
    }
}

fn text_is(s: &String, t: &str) -> (b: bool)
    ensures
        b == (s@ == t@),
{
    chars_eq(&chars_of(s.as_str()), &chars_of(t))
}

/// The declaration an artifact named `stem` gives, if any.
pub fn declaration_of(stem: &str, nodes: &Vec<LightNode>, file: &str) -> (r: Option<Declaration>)
    ensures
        match declaration_spec(stem@, nodes@, file@) {
            Some(v) => r matches Some(d) && decl_view(d) == v,
            None => r is None,
        },
{
    let sv = chars_of(stem);
    let mut i: usize = 0;
    while i < nodes.len()
        invariant
            i <= nodes@.len(),
            sv@ == stem@,
            stem_contract(nodes@, stem@, 0) == stem_contract(nodes@, stem@, i as int),
        decreases nodes@.len() - i,
    {
        let n = &nodes[i];
        let hit = text_is(&n.node_type, "ContractDefinition") && match &n.name {
            Some(x) => chars_eq(&chars_of(x.as_str()), &sv),
            None => false,
        };
        if hit {
            let kind = match &n.contract_kind {
                Some(k) => if text_is(k, "interface") {
                    DeclarationKind::Interface
                } else if text_is(k, "library") {
                    DeclarationKind::Library
                } else if n.is_abstract {
                    DeclarationKind::AbstractContract
                } else {
                    DeclarationKind::Contract
                },
                None => if n.is_abstract {
                    DeclarationKind::AbstractContract
                } else {
                    DeclarationKind::Contract
                },
            };
            return Some(Declaration { name: String::from_str(stem), kind, file: String::from_str(file) });
        }
        i = i + 1;
    }
    None
}

/// The declarations sorted by name (ties keep their order).
pub open spec fn sorted_by_name(ds: Seq<(Seq<char>, DeclarationKind, Seq<char>)>) -> Seq<(Seq<char>, DeclarationKind, Seq<char>)> {
    let o = sorted_order(ds.map_values(|d: (Seq<char>, DeclarationKind, Seq<char>)| d.0), false);
    Seq::new(o.len(), |i: int| ds[o[i] as int])
}

fn copy_decl(d: &Declaration) -> (r: Declaration)
    ensures
        decl_view(r) == decl_view(*d),
{
    Declaration { name: d.name.clone(), kind: d.kind, file: d.file.clone() }
}

/// The declarations sorted by name.
pub fn sort_declarations(ds: &Vec<Declaration>) -> (r: Vec<Declaration>)
    ensures
        decls_view(r@) == sorted_by_name(decls_view(ds@)),
{
    let ghost dv = decls_view(ds@);
    let ghost names = dv.map_values(|d: (Seq<char>, DeclarationKind, Seq<char>)| d.0);
    let mut keys: Vec<Vec<char>> = Vec::new();
    let mut i: usize = 0;
    while i < ds.len()
        invariant
            i <= ds@.len(),
            dv == decls_view(ds@),
            names == dv.map_values(|d: (Seq<char>, DeclarationKind, Seq<char>)| d.0),
            keys@.len() == i,
            forall|j: int| 0 <= j < i ==> (#[trigger] keys@[j])@ == names[j],
        decreases ds@.len() - i,
    {
        keys.push(chars_of(ds[i].name.as_str()));
        i = i + 1;
    }
    assert(keys@.map_values(|k: Vec<char>| k@) =~= names);
    let o = stable_order(&keys, false);
    let ghost sorted = sorted_by_name(dv);
    let mut out: Vec<Declaration> = Vec::new();
    let mut k: usize = 0;
    while k < o.len()
        invariant
            dv == decls_view(ds@),
            names == dv.map_values(|d: (Seq<char>, DeclarationKind, Seq<char>)| d.0),
            is_stable_order(names, o@, false),
            o@ == sorted_order(names, false),
            sorted == sorted_by_name(dv),
            k <= o@.len(),
            decls_view(out@) == sorted.take(k as int),
        decreases o@.len() - k,
    {
        assert(o@[k as int] < ds@.len());
        let c = copy_decl(&ds[o[k]]);
        let ghost o0 = decls_view(out@);
        out.push(c);
        assert(sorted[k as int] == dv[o@[k as int] as int]);
        assert(decls_view(out@) =~= o0.push(decl_view(c)));
        assert(decls_view(out@) =~= sorted.take(k + 1));
        k = k + 1;
    }
    assert(sorted.take(o@.len() as int) =~= sorted);
    out
}

/// The `file:name` lines of the declarations of one kind, in order.
pub open spec fn list_lines_spec(ds: Seq<(Seq<char>, DeclarationKind, Seq<char>)>, kind: DeclarationKind) -> Seq<Seq<char>>
    decreases ds.len(),
{
    if ds.len() == 0 {
        Seq::empty()
    } else {
        let rest = list_lines_spec(ds.drop_last(), kind);
        let d = ds.last();
        if d.1 == kind {
            rest.push(d.2 + ":"@ + d.0)
        } else {
            rest
        }
    }
}

/// The `file:name` lines of the declarations of one kind (the listing
/// commands' plain output).
pub fn list_lines(ds: &Vec<Declaration>, kind: DeclarationKind) -> (r: Vec<String>)
    ensures
        texts_view(r@) == list_lines_spec(decls_view(ds@), kind),
{
    let ghost dv = decls_view(ds@);
    let mut out: Vec<String> = Vec::new();
    let mut i: usize = 0;
    assert(dv.take(0) =~= Seq::<(Seq<char>, DeclarationKind, Seq<char>)>::empty());
    assert(texts_view(out@) =~= Seq::<Seq<char>>::empty());
    while i < ds.len()
        invariant
            i <= ds@.len(),
            dv == decls_view(ds@),
            texts_view(out@) == list_lines_spec(dv.take(i as int), kind),
        decreases ds@.len() - i,
    {
        assert(dv.take(i + 1).drop_last() =~= dv.take(i as int));
        assert(dv.take(i + 1).last() == decl_view(ds@[i as int]));
        if ds[i].kind == kind {
            let mut line = ds[i].file.clone();
            push_str(&mut line, ":");
            push_str(&mut line, ds[i].name.as_str());
            let ghost before = texts_view(out@);
            out.push(line);
            assert(texts_view(out@) =~= before.push(line@));
        }
        i = i + 1;
    }
    assert(dv.take(ds@.len() as int) =~= dv);
    out
}

// ---------------------------------------------------------------------------
// Selecting a declaration
// ---------------------------------------------------------------------------

/// A `path:name` argument split at its last `:` (both sides non-empty);
/// otherwise the whole argument is the name.
pub open spec fn parse_decl_spec(d: Seq<char>) -> (Seq<char>, Option<Seq<char>>) {
    match rfind_spec(d, seq![':']) {
        Some(i) => if i > 0 && i + 1 < d.len() {
            (d.subrange(i + 1, d.len() as int), Some(d.subrange(0, i)))
        } else {
            (d, None)
        },
        None => (d, None),
    }
}

/// The declarations named `name`, in order.
pub open spec fn named(ds: Seq<(Seq<char>, DeclarationKind, Seq<char>)>, name: Seq<char>) -> Seq<(Seq<char>, DeclarationKind, Seq<char>)>
    decreases ds.len(),
{
    if ds.len() == 0 {
        Seq::empty()
    } else if ds.last().0 == name {
        named(ds.drop_last(), name).push(ds.last())
    } else {
        named(ds.drop_last(), name)
    }
}

/// Index of the first of `fs` whose file, relative to `root`, is `file`.
pub open spec fn at_file(fs: Seq<(Seq<char>, DeclarationKind, Seq<char>)>, root: Seq<char>, file: Seq<char>, i: int) -> Option<int>
    decreases fs.len() - i,
{
    if i < 0 || i >= fs.len() {
        None
    } else if relative_spec(fs[i].2, root) == file {
        Some(i)
    } else {
        at_file(fs, root, file, i + 1)
    }
}

/// The suggestion lines for the first `k` declarations in order `o`.
pub open spec fn decl_lines(fs: Seq<(Seq<char>, DeclarationKind, Seq<char>)>, o: Seq<usize>, root: Seq<char>, command: Seq<char>, k: int) -> Seq<char>
    decreases k,
{
    if k <= 0 || k > o.len() {
        Seq::empty()
    } else {
        decl_lines(fs, o, root, command, k - 1) + "\n"@ + command + " "@ + relative_spec(fs[o[k - 1] as int].2, root) + ":"@
            + fs[o[k - 1] as int].0
    }
}

/// Which declaration a `path:name` or bare name selects among `ds`: with a
/// path, the first named one whose file (relative to `root`) is that path;
/// by name, the only one, an error listing every name (sorted, each once)
/// when there is none, or an error suggesting `command` for each, sorted by
/// file, when there are several.
pub open spec fn select_spec(
    decl: Seq<char>,
    ds: Seq<(Seq<char>, DeclarationKind, Seq<char>)>,
    root: Seq<char>,
    command: Seq<char>,
    what: Seq<char>,
) -> Result<(Seq<char>, DeclarationKind, Seq<char>), Seq<char>> {
    let (name, file) = parse_decl_spec(decl);
    let found = named(ds, name);
    match file {
        Some(f) => match at_file(found, root, f, 0) {
            Some(i) => Ok(found[i]),
            None => Err("\""@ + decl + "\" not found.\n\nAvailable matches for \""@ + name + "\":"@),
        },
        None => if found.len() == 0 {
            Err("\""@ + decl + "\" not found.\n\nAvailable "@ + what + ": "@ + join_spec(
                dedup_spec(texts_sorted(ds.map_values(|d: (Seq<char>, DeclarationKind, Seq<char>)| d.0))),
                ", "@,
            ))
        } else if found.len() == 1 {
            Ok(found[0])
        } else {
            let o = sorted_order(found.map_values(|d: (Seq<char>, DeclarationKind, Seq<char>)| d.2), true);
            Err("found "@ + decimal(found.len()) + " \""@ + name + "\"\n\nSelect one of the following:\n"@
                + decl_lines(found, o, root, command, o.len() as int) + "\n"@)
        },
    }
}

fn parse_decl(decl: &str) -> (r: (String, Option<String>))
    ensures
        r.0@ == parse_decl_spec(decl@).0,
        match parse_decl_spec(decl@).1 {
            Some(f) => r.1 matches Some(x) && x@ == f,
            None => r.1 is None,
        },
{
    let v = chars_of(decl);
    let mut colon: Vec<char> = Vec::new();
    colon.push(':');
    assert(colon@ =~= seq![':']);
    match rfind_exec(&v, &colon) {
        Some(i) => {
            proof {
                assert(crate::strings::occurs_at(v@, i as int, colon@));
            }
            if i > 0 && i < v.len() && i + 1 < v.len() {
                (string_of_range(&v, i + 1, v.len()), Some(string_of_range(&v, 0, i)))
            } else {
                (String::from_str(decl), None)
            }
        },
        None => (String::from_str(decl), None),
    }
}

fn named_exec(ds: &Vec<Declaration>, name: &String) -> (r: Vec<Declaration>)
    ensures
        decls_view(r@) == named(decls_view(ds@), name@),
{
    let ghost dv = decls_view(ds@);
    let mut out: Vec<Declaration> = Vec::new();
    let mut i: usize = 0;
    assert(dv.take(0) =~= Seq::<(Seq<char>, DeclarationKind, Seq<char>)>::empty());
    assert(decls_view(out@) =~= Seq::<(Seq<char>, DeclarationKind, Seq<char>)>::empty());
    while i < ds.len()
        invariant
            i <= ds@.len(),
            dv == decls_view(ds@),
            decls_view(out@) == named(dv.take(i as int), name@),
        decreases ds@.len() - i,
    {
        assert(dv.take(i + 1).drop_last() =~= dv.take(i as int));
        assert(dv.take(i + 1).last() == decl_view(ds@[i as int]));
        if text_is(&ds[i].name, name.as_str()) {
            let c = copy_decl(&ds[i]);
            let ghost before = decls_view(out@);
            out.push(c);
            assert(decls_view(out@) =~= before.push(decl_view(c)));
        }
        i = i + 1;
    }
    assert(dv.take(ds@.len() as int) =~= dv);
    out
}

pub open spec fn decl_result_view(r: Result<Declaration, String>) -> Result<(Seq<char>, DeclarationKind, Seq<char>), Seq<char>> {
    match r {
        Ok(d) => Ok(decl_view(d)),
        Err(e) => Err(e@),
    }
}

/// Select the declaration a `path:name` or bare name names (see
/// [`select_spec`]); `what` names the list shown when nothing matches.
pub fn select_declaration(decl: &str, ds: &Vec<Declaration>, root: &str, command: &str, what: &str) -> (r: Result<Declaration, String>)
    ensures
        decl_result_view(r) == select_spec(decl@, decls_view(ds@), root@, command@, what@),
{
    let (name, file) = parse_decl(decl);
    let found = named_exec(ds, &name);
    let ghost fv = decls_view(found@);
    match file {
        Some(f) => {
            let fc = chars_of(f.as_str());
            let mut i: usize = 0;
            while i < found.len()
                invariant
                    i <= found@.len(),
                    fv == decls_view(found@),
                    fc@ == f@,
                    fv == named(decls_view(ds@), name@),
                    parse_decl_spec(decl@).0 == name@,
                    parse_decl_spec(decl@).1 == Some(f@),
                    at_file(fv, root@, f@, 0) == at_file(fv, root@, f@, i as int),
                decreases found@.len() - i,
            {
                let rel = relative_path(found[i].file.as_str(), root);
                if chars_eq(&chars_of(rel.as_str()), &fc) {
                    return Ok(copy_decl(&found[i]));
                }
                i = i + 1;
            }
            let mut e = String::from_str("\"");
            push_str(&mut e, decl);
            push_str(&mut e, "\" not found.\n\nAvailable matches for \"");
            push_str(&mut e, name.as_str());
            push_str(&mut e, "\":");
            Err(e)
        },
        None => {
            if found.len() == 0 {
                let mut names: Vec<String> = Vec::new();
                let mut j: usize = 0;
                while j < ds.len()
                    invariant
                        j <= ds@.len(),
                        texts_view(names@) == decls_view(ds@).map_values(|d: (Seq<char>, DeclarationKind, Seq<char>)| d.0).take(j as int),
                    decreases ds@.len() - j,
                {
                    let ghost before = texts_view(names@);
                    let ghost all = decls_view(ds@).map_values(|d: (Seq<char>, DeclarationKind, Seq<char>)| d.0);
                    names.push(ds[j].name.clone());
                    assert(all[j as int] == ds@[j as int].name@);
                    assert(all.take(j + 1) =~= all.take(j as int).push(all[j as int]));
                    assert(texts_view(names@) =~= before.push(ds@[j as int].name@));
                    assert(texts_view(names@) =~= decls_view(ds@).map_values(|d: (Seq<char>, DeclarationKind, Seq<char>)| d.0).take(j + 1));
                    j = j + 1;
                }
                assert(decls_view(ds@).map_values(|d: (Seq<char>, DeclarationKind, Seq<char>)| d.0).take(ds@.len() as int)
                    =~= decls_view(ds@).map_values(|d: (Seq<char>, DeclarationKind, Seq<char>)| d.0));
                let sorted = sort_texts(&names);
                let unique = dedup_texts(&sorted);
                let joined = join_texts(&unique, ", ");
                let mut e = String::from_str("\"");
                push_str(&mut e, decl);
                push_str(&mut e, "\" not found.\n\nAvailable ");
                push_str(&mut e, what);
                push_str(&mut e, ": ");
                push_str(&mut e, joined.as_str());
                Err(e)
            } else if found.len() == 1 {
                Ok(copy_decl(&found[0]))
            } else {
                let mut keys: Vec<Vec<char>> = Vec::new();
                let mut j: usize = 0;
                while j < found.len()
                    invariant
                        j <= found@.len(),
                        fv == decls_view(found@),
                        keys@.len() == j,
                        forall|x: int| 0 <= x < j ==> (#[trigger] keys@[x])@ == fv[x].2,
                    decreases found@.len() - j,
                {
                    keys.push(chars_of(found[j].file.as_str()));
                    j = j + 1;
                }
                assert(keys@.map_values(|k: Vec<char>| k@) =~= fv.map_values(|d: (Seq<char>, DeclarationKind, Seq<char>)| d.2));
                let order = stable_order(&keys, true);
                let ghost o = order@;
                let mut e = String::from_str("found ");
                let n = decimal_exec(found.len());
                push_str(&mut e, n.as_str());
                push_str(&mut e, " \"");
                push_str(&mut e, name.as_str());
                push_str(&mut e, "\"\n\nSelect one of the following:\n");
                let ghost head = e@;
                let mut k: usize = 0;
                while k < order.len()
                    invariant
                        o == order@,
                        fv == decls_view(found@),
                        is_stable_order(fv.map_values(|d: (Seq<char>, DeclarationKind, Seq<char>)| d.2), o, true),
                        o.len() == found@.len(),
                        k <= o.len(),
                        e@ == head + decl_lines(fv, o, root@, command@, k as int),
                    decreases o.len() - k,
                {
                    let d = &found[order[k]];
                    let rel = relative_path(d.file.as_str(), root);
                    push_str(&mut e, "\n");
                    push_str(&mut e, command);
                    push_str(&mut e, " ");
                    push_str(&mut e, rel.as_str());
                    push_str(&mut e, ":");
                    push_str(&mut e, d.name.as_str());
                    assert(e@ =~= head + decl_lines(fv, o, root@, command@, k + 1));
                    k = k + 1;
                }
                push_str(&mut e, "\n");
                Err(e)
            }
        },
    }
}

// ---------------------------------------------------------------------------
// The inheritance report
// ---------------------------------------------------------------------------

/// The numbered `i. file:name` lines of the first `k` sources.
pub open spec fn source_lines(ps: Seq<(Seq<char>, Seq<char>)>, k: int) -> Seq<char>
    decreases k,
{
    if k <= 0 || k > ps.len() {
        Seq::empty()
    } else {
        source_lines(ps, k - 1) + decimal(k as nat) + ". "@ + ps[k - 1].0 + ":"@ + ps[k - 1].1 + "\n"@
    }
}

/// The inheritance report: the graph, then its sources numbered in
/// depth-first order.
pub open spec fn inheritance_report_spec(t: InheritanceNode) -> Seq<char> {
    let ps = inheritance_pairs(t);
    "Inheritance graph:\n\n"@ + render_inheritance(t) + "\nSources:\n\n"@ + source_lines(ps, ps.len() as int)
}

/// Render the inheritance report of a resolved tree.
pub fn inheritance_report(t: &InheritanceNode) -> (r: String)
    ensures
        r@ == inheritance_report_spec(*t),
{
    let sources = t.flatten_sources();
    let ghost ps = pair_list_view(sources@);
    let mut out = String::from_str("Inheritance graph:\n\n");
    let g = t.to_string();
    push_str(&mut out, g.as_str());
    push_str(&mut out, "\nSources:\n\n");
    let ghost head = out@;
    let mut i: usize = 0;
    while i < sources.len()
        invariant
            i <= sources@.len(),
            ps == pair_list_view(sources@),
            ps == inheritance_pairs(*t),
            out@ == head + source_lines(ps, i as int),
        decreases sources@.len() - i,
    {
        let d = decimal_exec(i + 1);
        push_str(&mut out, d.as_str());
        push_str(&mut out, ". ");
        push_str(&mut out, sources[i].0.as_str());
        push_str(&mut out, ":");
        push_str(&mut out, sources[i].1.as_str());
        push_str(&mut out, "\n");
        assert(ps[i as int] == (sources@[i as int].0@, sources@[i as int].1@));
        assert(out@ =~= head + source_lines(ps, i + 1));
        i = i + 1;
    }
    out
}

// ---------------------------------------------------------------------------
// Commands: validate, then list or select
// ---------------------------------------------------------------------------

/// The outcome of checking `foundry.toml` for `ast = true`: `None` when it
/// passes, else the error.
pub open spec fn config_error(text: Seq<char>, path: Seq<char>) -> Option<Seq<char>> {
    match toml_document(text) {
        Ok(d) => if ast_enabled(d) {
            None
        } else {
            Some(ast_message(path))
        },
        Err(m) => Some(m),
    }
}

/// The outcome of checking `foundry.toml` for `ast = true` and the storage
/// layout output.
pub open spec fn storage_config_error(text: Seq<char>, path: Seq<char>) -> Option<Seq<char>> {
    match toml_document(text) {
        Ok(d) => if !ast_enabled(d) {
            Some(ast_message(path))
        } else if !storage_layout_enabled(d) {
            Some(storage_layout_message(path))
        } else {
            None
        },
        Err(m) => Some(m),
    }
}

/// A listing command: after the configuration check, the `file:name` lines
/// of the declarations of one kind, sorted by name.
pub fn list_declarations(config: &str, config_path: &str, ds: &Vec<Declaration>, kind: DeclarationKind) -> (r: Result<Vec<String>, String>)
    ensures
        match config_error(config@, config_path@) {
            Some(e) => r matches Err(x) && x@ == e,
            None => r matches Ok(v) && texts_view(v@) == list_lines_spec(sorted_by_name(decls_view(ds@)), kind),
        },
{
    match validate_config(config, config_path) {
        Err(e) => Err(e),
        Ok(()) => {
            let sorted = sort_declarations(ds);
            Ok(list_lines(&sorted, kind))
        },
    }
}

/// The declarations of one kind, in order.
pub open spec fn of_kind(ds: Seq<(Seq<char>, DeclarationKind, Seq<char>)>, kind: DeclarationKind) -> Seq<(Seq<char>, DeclarationKind, Seq<char>)>
    decreases ds.len(),
{
    if ds.len() == 0 {
        Seq::empty()
    } else if ds.last().1 == kind {
        of_kind(ds.drop_last(), kind).push(ds.last())
    } else {
        of_kind(ds.drop_last(), kind)
    }
}

fn of_kind_exec(ds: &Vec<Declaration>, kind: DeclarationKind) -> (r: Vec<Declaration>)
    ensures
        decls_view(r@) == of_kind(decls_view(ds@), kind),
{
    let ghost dv = decls_view(ds@);
    let mut out: Vec<Declaration> = Vec::new();
    let mut i: usize = 0;
    assert(dv.take(0) =~= Seq::<(Seq<char>, DeclarationKind, Seq<char>)>::empty());
    assert(decls_view(out@) =~= Seq::<(Seq<char>, DeclarationKind, Seq<char>)>::empty());
    while i < ds.len()
        invariant
            i <= ds@.len(),
            dv == decls_view(ds@),
            decls_view(out@) == of_kind(dv.take(i as int), kind),
        decreases ds@.len() - i,
    {
        assert(dv.take(i + 1).drop_last() =~= dv.take(i as int));
        assert(dv.take(i + 1).last() == decl_view(ds@[i as int]));
        if ds[i].kind == kind {
            let c = copy_decl(&ds[i]);
            let ghost before = decls_view(out@);
            out.push(c);
            assert(decls_view(out@) =~= before.push(decl_view(c)));
        }
        i = i + 1;
    }
    assert(dv.take(ds@.len() as int) =~= dv);
    out
}

/// The storage-layout command's choice of contract: after the configuration
/// check (with the storage layout output), the deployable contract a
/// `path:name` or bare name selects (see [`select_spec`]).
pub fn select_deployable(config: &str, config_path: &str, decl: &str, ds: &Vec<Declaration>, root: &str) -> (r: Result<Declaration, String>)
    ensures
        match storage_config_error(config@, config_path@) {
            Some(e) => r matches Err(x) && x@ == e,
            None => decl_result_view(r) == select_spec(
                decl@,
                of_kind(decls_view(ds@), DeclarationKind::Contract),
                root@,
                "hawk inspect storages"@,
                "contracts"@,
            ),
        },
{
    match validate_storage_layout_config(config, config_path) {
        Err(e) => Err(e),
        Ok(()) => {
            let deployable = of_kind_exec(ds, DeclarationKind::Contract);
            select_declaration(decl, &deployable, root, "hawk inspect storages", "contracts")
        },
    }
}

/// The inheritance command's choice of declaration: after the configuration
/// check, the declaration a `path:name` or bare name selects.
pub fn select_inheritance_root(config: &str, config_path: &str, decl: &str, ds: &Vec<Declaration>, root: &str) -> (r: Result<Declaration, String>)
    ensures
        match config_error(config@, config_path@) {
            Some(e) => r matches Err(x) && x@ == e,
            None => decl_result_view(r) == select_spec(decl@, decls_view(ds@), root@, "hawk inspect inheritances"@, "declarations"@),
        },
{
    match validate_config(config, config_path) {
        Err(e) => Err(e),
        Ok(()) => select_declaration(decl, ds, root, "hawk inspect inheritances", "declarations"),
    }
}

} // verus!
