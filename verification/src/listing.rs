//! Listings of a project's declarations of one kind (abstract contracts,
//! deployable contracts, interfaces, libraries): which artifact declares
//! one, the listing sorted by name and path, and its report grouped by the
//! directory each file lies in.
use vstd::prelude::*;
use crate::call_paths::{under_dir, under_dir_spec};
use crate::order::{is_key_order, key_order, key_sorted_order, push_text_key, text_key, texts_view};
use crate::resolver::{relative_path, relative_spec};
use crate::strings::{chars_eq, chars_of, decimal, decimal_exec, push_str};

verus! {

/// The kind of declaration a listing shows.
#[derive(Debug, Clone, Copy, PartialEq, Eq, Structural)]
pub enum ListKind {
    Abstract,
    Contract,
    Interface,
    Library,
}

/// A top-level node of an artifact's AST, as a listing reads it.
pub struct LightNode {
    pub node_type: String,
    pub name: Option<String>,
    pub is_abstract: bool,
    pub contract_kind: Option<String>,
}

/// A listed declaration: its name and its file relative to the project.
pub struct Listed {
    pub name: String,
    pub path: String,
}

/// An abstract contract of the project.
pub type Abstract = Listed;
/// A deployable contract of the project.
pub type Contract = Listed;
/// An interface of the project.
pub type Interface = Listed;
/// A library of the project.
pub type Library = Listed;

/// The directory configuration of a project.
pub struct ProjectDirectories {
    pub src: String,
    pub test: String,
    pub libs: Vec<String>,
}

/// The directory a listed file lies in.
#[derive(Debug, Clone, Copy, PartialEq, Eq, Structural)]
pub enum DirCategory {
    Src,
    Lib,
    Test,
    Other,
}

/// Whether a node declares, under `target`, a declaration of the kind.
pub open spec fn node_is_kind(kind: ListKind, n: LightNode, target: Seq<char>) -> bool {
    let ck = match n.contract_kind {
        Some(k) => Some(k@),
        None => None,
    };
    &&& n.node_type@ == "ContractDefinition"@
    &&& match kind {
        ListKind::Abstract => ck == Some("contract"@) && n.is_abstract,
        ListKind::Contract => ck == Some("contract"@) && !n.is_abstract,
        ListKind::Interface => ck == Some("interface"@),
        ListKind::Library => ck == Some("library"@),
    }
    &&& n.name matches Some(x) && x@ == target
}

/// Whether some node of `ns[0..k]` declares `target` with the kind.
pub open spec fn declares_kind(kind: ListKind, ns: Seq<LightNode>, target: Seq<char>, k: int) -> bool {
    exists|i: int| 0 <= i < k && i < ns.len() && node_is_kind(kind, #[trigger] ns[i], target)
}

/// The entry an artifact named `stem` gives: the declaration of that name,
/// when one of its nodes declares it with the kind, with the file its AST
/// records relative to the project root.
pub open spec fn listed_spec(kind: ListKind, stem: Seq<char>, nodes: Seq<LightNode>, absolute_path: Seq<char>, root: Seq<char>) -> Option<
    (Seq<char>, Seq<char>),
> {
    if declares_kind(kind, nodes, stem, nodes.len() as int) {
        Some((stem, relative_spec(absolute_path, root)))
    } else {
        None
    }
}

/// The entry an artifact named `stem` gives, if any.
pub fn parse_listed(kind: ListKind, stem: &str, nodes: &Vec<LightNode>, absolute_path: &str, project_root: &str) -> (r: Option<Listed>)
    ensures
        match listed_spec(kind, stem@, nodes@, absolute_path@, project_root@) {
            Some((n, p)) => r matches Some(l) && l.name@ == n && l.path@ == p,
            None => r is None,
        },
{
    let sv = chars_of(stem);
    let mut i: usize = 0;
    while i < nodes.len()
        invariant
            sv@ == stem@,
            i <= nodes@.len(),
            !declares_kind(kind, nodes@, stem@, i as int),
        decreases nodes@.len() - i,
    {
        let n = &nodes[i];
        let nt = chars_of(n.node_type.as_str());
        let is_def = chars_eq(&nt, &chars_of("ContractDefinition"));
        let kind_ok = match &n.contract_kind {
            Some(k) => {
                let kv = chars_of(k.as_str());
                match kind {
                    ListKind::Abstract => chars_eq(&kv, &chars_of("contract")) && n.is_abstract,
                    ListKind::Contract => chars_eq(&kv, &chars_of("contract")) && !n.is_abstract,
                    ListKind::Interface => chars_eq(&kv, &chars_of("interface")),
                    ListKind::Library => chars_eq(&kv, &chars_of("library")),
                }
            },
            None => false,
        };
        let name_ok = match &n.name {
            Some(x) => {
                let xv = chars_of(x.as_str());
                chars_eq(&xv, &sv)
            },
            None => false,
        };
        if is_def && kind_ok && name_ok {
            assert(node_is_kind(kind, nodes@[i as int], stem@));
            let path = relative_path(absolute_path, project_root);
            return Some(Listed { name: String::from_str(stem), path });
        }
        proof {
            assert(!node_is_kind(kind, nodes@[i as int], stem@));
            assert forall|q: int| 0 <= q < i + 1 && q < nodes@.len() implies !node_is_kind(kind, #[trigger] nodes@[q], stem@) by {
                if q < i {
                    assert(!declares_kind(kind, nodes@, stem@, i as int));
                }
            }
        }
        i = i + 1;
    }
    None
}

/// Sort keys of entries: by name, then by path.
pub open spec fn listed_keys(es: Seq<Listed>) -> Seq<Seq<u128>> {
    es.map_values(|e: Listed| text_key(e.name@, false) + text_key(e.path@, true))
}

/// Specification values of entries.
pub open spec fn listed_view(es: Seq<Listed>) -> Seq<(Seq<char>, Seq<char>)> {
    es.map_values(|e: Listed| (e.name@, e.path@))
}

/// Entries sorted by name, then path.
pub open spec fn sorted_listed(es: Seq<Listed>) -> Seq<(Seq<char>, Seq<char>)> {
    let o = key_sorted_order(listed_keys(es));
    Seq::new(o.len(), |i: int| (es[o[i] as int].name@, es[o[i] as int].path@))
}

/// Sort entries by name, then path.
pub fn sort_listed(es: &Vec<Listed>) -> (r: Vec<Listed>)
    ensures
        listed_view(r@) == sorted_listed(es@),
{
    let mut keys: Vec<Vec<u128>> = Vec::new();
    let mut i: usize = 0;
    while i < es.len()
        invariant
            i <= es@.len(),
            keys@.len() == i,
            forall|j: int| 0 <= j < i ==> (#[trigger] keys@[j])@ == listed_keys(es@)[j],
        decreases es@.len() - i,
    {
        let mut k: Vec<u128> = Vec::new();
        push_text_key(&mut k, es[i].name.as_str(), false);
        push_text_key(&mut k, es[i].path.as_str(), true);
        keys.push(k);
        i = i + 1;
    }
    assert(keys@.map_values(|k: Vec<u128>| k@) =~= listed_keys(es@));
    let o = key_order(&keys);
    let ghost sorted = sorted_listed(es@);
    let mut out: Vec<Listed> = Vec::new();
    let mut k: usize = 0;
    while k < o.len()
        invariant
            is_key_order(listed_keys(es@), o@),
            o@ == key_sorted_order(listed_keys(es@)),
            sorted == sorted_listed(es@),
            k <= o@.len(),
            listed_view(out@) == sorted.take(k as int),
        decreases o@.len() - k,
    {
        assert(o@[k as int] < es@.len());
        let e = &es[o[k]];
        let c = Listed { name: e.name.clone(), path: e.path.clone() };
        let ghost o0 = out@;
        out.push(c);
        assert(listed_view(out@) =~= listed_view(o0).push((c.name@, c.path@)));
        assert(listed_view(out@) =~= sorted.take(k + 1));
        k = k + 1;
    }
    assert(sorted.take(o@.len() as int) =~= sorted);
    out
}

/// The directory category of a file: a library directory first, then the
/// source directory, then the test directory.
pub open spec fn classify_spec(dirs: ProjectDirectories, path: Seq<char>) -> DirCategory {
    if exists|i: int| 0 <= i < dirs.libs@.len() && under_dir_spec(path, (#[trigger] dirs.libs@[i])@) {
        DirCategory::Lib
    } else if under_dir_spec(path, dirs.src@) {
        DirCategory::Src
    } else if under_dir_spec(path, dirs.test@) {
        DirCategory::Test
    } else {
        DirCategory::Other
    }
}

/// The directory category of a file.
pub fn classify(dirs: &ProjectDirectories, path: &str) -> (r: DirCategory)
    ensures
        r == classify_spec(*dirs, path@),
{
    let mut i: usize = 0;
    while i < dirs.libs.len()
        invariant
            i <= dirs.libs@.len(),
            forall|j: int| 0 <= j < i ==> !under_dir_spec(path@, (#[trigger] dirs.libs@[j])@),
        decreases dirs.libs@.len() - i,
    {
        if under_dir(path, dirs.libs[i].as_str()) {
            return DirCategory::Lib;
        }
        i = i + 1;
    }
    if under_dir(path, dirs.src.as_str()) {
        DirCategory::Src
    } else if under_dir(path, dirs.test.as_str()) {
        DirCategory::Test
    } else {
        DirCategory::Other
    }
}

/// The plural noun of a kind.
pub open spec fn noun_spec(kind: ListKind) -> Seq<char> {
    match kind {
        ListKind::Abstract => "abstracts"@,
        ListKind::Contract => "contracts"@,
        ListKind::Interface => "interfaces"@,
        ListKind::Library => "libraries"@,
    }
}

/// The name of a directory category.
pub open spec fn dir_name_spec(c: DirCategory) -> Seq<char> {
    match c {
        DirCategory::Src => "src"@,
        DirCategory::Lib => "lib"@,
        DirCategory::Test => "test"@,
        DirCategory::Other => "other"@,
    }
}

/// The entries of `es[0..k]` in category `c`, in order.
pub open spec fn group_of(dirs: ProjectDirectories, es: Seq<(Seq<char>, Seq<char>)>, c: DirCategory, k: int) -> Seq<(Seq<char>, Seq<char>)>
    decreases k,
{
    if k <= 0 || k > es.len() {
        Seq::empty()
    } else if classify_spec(dirs, es[k - 1].1) == c {
        group_of(dirs, es, c, k - 1).push(es[k - 1])
    } else {
        group_of(dirs, es, c, k - 1)
    }
}

/// The categories in report order.
pub open spec fn category_at(i: int) -> DirCategory {
    if i == 0 {
        DirCategory::Src
    } else if i == 1 {
        DirCategory::Lib
    } else if i == 2 {
        DirCategory::Test
    } else {
        DirCategory::Other
    }
}

/// The summary lines of the non-empty groups among the first `k`
/// categories.
pub open spec fn summary_lines(kind: ListKind, dirs: ProjectDirectories, es: Seq<(Seq<char>, Seq<char>)>, k: int) -> Seq<char>
    decreases k,
{
    if k <= 0 || k > 4 {
        Seq::empty()
    } else {
        let g = group_of(dirs, es, category_at(k - 1), es.len() as int);
        summary_lines(kind, dirs, es, k - 1) + if g.len() == 0 {
            Seq::empty()
        } else {
            "- "@ + decimal(g.len()) + " "@ + noun_spec(kind) + " in "@ + dir_name_spec(category_at(k - 1)) + " directory\n"@
        }
    }
}

/// The lines of the entries `g[0..k]` of a group.
pub open spec fn entry_lines(g: Seq<(Seq<char>, Seq<char>)>, k: int) -> Seq<char>
    decreases k,
{
    if k <= 0 || k > g.len() {
        Seq::empty()
    } else {
        entry_lines(g, k - 1) + decimal(k as nat) + ". "@ + g[k - 1].0 + " (file: "@ + g[k - 1].1 + ")\n"@
    }
}

/// The sections of the non-empty groups among the first `k` categories.
pub open spec fn group_sections(kind: ListKind, dirs: ProjectDirectories, es: Seq<(Seq<char>, Seq<char>)>, k: int) -> Seq<char>
    decreases k,
{
    if k <= 0 || k > 4 {
        Seq::empty()
    } else {
        let g = group_of(dirs, es, category_at(k - 1), es.len() as int);
        group_sections(kind, dirs, es, k - 1) + if g.len() == 0 {
            Seq::empty()
        } else {
            "\n"@ + noun_spec(kind) + " in "@ + dir_name_spec(category_at(k - 1)) + " directory:\n"@ + entry_lines(g, g.len() as int)
        }
    }
}

/// The report of a listing.
pub open spec fn listing_report(kind: ListKind, dirs: ProjectDirectories, es: Seq<(Seq<char>, Seq<char>)>) -> Seq<char> {
    "summary:\n"@ + summary_lines(kind, dirs, es, 4) + "- total "@ + decimal(es.len()) + " "@ + noun_spec(kind) + "\n"@
        + group_sections(kind, dirs, es, 4)
}


/// The entries of a category, in order.
fn group_exec(dirs: &ProjectDirectories, es: &Vec<Listed>, c: DirCategory) -> (g: Vec<Listed>)
    ensures
        listed_view(g@) == group_of(*dirs, listed_view(es@), c, es@.len() as int),
{
    let ghost ev = listed_view(es@);
    let mut g: Vec<Listed> = Vec::new();
    let mut i: usize = 0;
    while i < es.len()
        invariant
            ev == listed_view(es@),
            i <= es@.len(),
            listed_view(g@) == group_of(*dirs, ev, c, i as int),
        decreases es@.len() - i,
    {
        let e = &es[i];
        assert(ev[i as int] == (e.name@, e.path@));
        if classify(dirs, e.path.as_str()) == c {
            let ghost g0 = g@;
            let x = Listed { name: e.name.clone(), path: e.path.clone() };
            g.push(x);
            assert(listed_view(g@) =~= listed_view(g0).push((x.name@, x.path@)));
        }
        i = i + 1;
    }
    g
}

fn noun_str(kind: ListKind) -> (r: &'static str)
    ensures
        r@ == noun_spec(kind),
{
    match kind {
        ListKind::Abstract => "abstracts",
        ListKind::Contract => "contracts",
        ListKind::Interface => "interfaces",
        ListKind::Library => "libraries",
    }
}

fn dir_name_str(c: DirCategory) -> (r: &'static str)
    ensures
        r@ == dir_name_spec(c),
{
    match c {
        DirCategory::Src => "src",
        DirCategory::Lib => "lib",
        DirCategory::Test => "test",
        DirCategory::Other => "other",
    }
}

fn category_exec(i: usize) -> (c: DirCategory)
    ensures
        c == category_at(i as int),
{
    if i == 0 {
        DirCategory::Src
    } else if i == 1 {
        DirCategory::Lib
    } else if i == 2 {
        DirCategory::Test
    } else {
        DirCategory::Other
    }
}

/// The section of one non-empty group.
fn group_section(kind: ListKind, c: DirCategory, g: &Vec<Listed>) -> (r: String)
    ensures
        r@ == "\n"@ + noun_spec(kind) + " in "@ + dir_name_spec(c) + " directory:\n"@ + entry_lines(listed_view(g@), g@.len() as int),
{
    let ghost gv = listed_view(g@);
    let mut r = String::from_str("\n");
    push_str(&mut r, noun_str(kind));
    push_str(&mut r, " in ");
    push_str(&mut r, dir_name_str(c));
    push_str(&mut r, " directory:\n");
    let ghost head = r@;
    let mut i: usize = 0;
    while i < g.len()
        invariant
            gv == listed_view(g@),
            i <= g@.len(),
            r@ == head + entry_lines(gv, i as int),
        decreases g@.len() - i,
    {
        let d = decimal_exec(i + 1);
        push_str(&mut r, d.as_str());
        push_str(&mut r, ". ");
        push_str(&mut r, g[i].name.as_str());
        push_str(&mut r, " (file: ");
        push_str(&mut r, g[i].path.as_str());
        push_str(&mut r, ")\n");
        assert(gv[i as int] == (g@[i as int].name@, g@[i as int].path@));
        assert(r@ =~= head + entry_lines(gv, i + 1));
        i = i + 1;
    }
    r
}

/// The summary line and the section of category `c` (both empty when it
/// has no entries).
fn category_parts(kind: ListKind, dirs: &ProjectDirectories, es: &Vec<Listed>, c: DirCategory) -> (r: (String, String))
    ensures
        ({
            let g = group_of(*dirs, listed_view(es@), c, es@.len() as int);
            &&& r.0@ == if g.len() == 0 {
                Seq::empty()
            } else {
                "- "@ + decimal(g.len()) + " "@ + noun_spec(kind) + " in "@ + dir_name_spec(c) + " directory\n"@
            }
            &&& r.1@ == if g.len() == 0 {
                Seq::empty()
            } else {
                "\n"@ + noun_spec(kind) + " in "@ + dir_name_spec(c) + " directory:\n"@ + entry_lines(g, g.len() as int)
            }
        }),
{
    let g = group_exec(dirs, es, c);
    if g.len() == 0 {
        return (String::new(), String::new());
    }
    let mut a = String::from_str("- ");
    let n = decimal_exec(g.len());
    push_str(&mut a, n.as_str());
    push_str(&mut a, " ");
    push_str(&mut a, noun_str(kind));
    push_str(&mut a, " in ");
    push_str(&mut a, dir_name_str(c));
    push_str(&mut a, " directory\n");
    let b = group_section(kind, c, &g);
    (a, b)
}

/// The output of a listing inspection.
pub struct ListingOutput {
    pub kind: ListKind,
    pub entries: Vec<Listed>,
    pub directories: ProjectDirectories,
}

impl ListingOutput {
    /// Create the output of a listing.
    pub fn new(kind: ListKind, entries: Vec<Listed>, directories: ProjectDirectories) -> (r: Self)
        ensures
            r.kind == kind,
            r.entries@ == entries@,
            r.directories == directories,
    {
        ListingOutput { kind, entries, directories }
    }

    /// The report: a summary by directory, then each directory's entries.
    pub fn to_string(&self) -> (r: String)
        ensures
            r@ == listing_report(self.kind, self.directories, listed_view(self.entries@)),
    {
        let ghost ev = listed_view(self.entries@);
        let mut summary = String::from_str("summary:\n");
        let mut sections = String::new();
        let mut k: usize = 0;
        while k < 4
            invariant
                ev == listed_view(self.entries@),
                k <= 4,
                summary@ == "summary:\n"@ + summary_lines(self.kind, self.directories, ev, k as int),
                sections@ == group_sections(self.kind, self.directories, ev, k as int),
            decreases 4 - k,
        {
            let c = category_exec(k);
            let (a, b) = category_parts(self.kind, &self.directories, &self.entries, c);
            push_str(&mut summary, a.as_str());
            push_str(&mut sections, b.as_str());
            assert(summary@ =~= "summary:\n"@ + summary_lines(self.kind, self.directories, ev, k + 1));
            assert(sections@ =~= group_sections(self.kind, self.directories, ev, k + 1));
            k = k + 1;
        }
        push_str(&mut summary, "- total ");
        let n = decimal_exec(self.entries.len());
        push_str(&mut summary, n.as_str());
        push_str(&mut summary, " ");
        push_str(&mut summary, noun_str(self.kind));
        push_str(&mut summary, "\n");
        push_str(&mut summary, sections.as_str());
        summary
    }
}

} // verus!
