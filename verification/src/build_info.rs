//! Build-info records: which source file each AST source ID names in one
//! compilation, and the choice of the right compilation across incremental
//! builds.
use vstd::prelude::*;
use crate::strings::{chars_eq, chars_of};

verus! {

/// A parsed build-info file.
#[derive(Debug, Clone)]
pub struct BuildInfo {
    /// The build identifier (a hex hash).
    pub id: String,
    /// Maps source IDs (from AST node `src` fields) to file paths relative
    /// to the project root, one entry per source ID.
    pub source_id_to_path: Vec<(String, String)>,
}

/// The path a table gives for `key`: the entry with that key.
pub open spec fn lookup(table: Seq<(String, String)>, key: Seq<char>) -> Option<Seq<char>>
    decreases table.len(),
{
    if table.len() == 0 {
        None
    } else if table[0].0@ == key {
        Some(table[0].1@)
    } else {
        lookup(table.drop_first(), key)
    }
}

// ---------------------------------------------------------------------------
// Path equality
// ---------------------------------------------------------------------------

/// The `/`-separated pieces of `s` read so far: those finished and the one
/// being read.
pub open spec fn piece_state(s: Seq<char>) -> (Seq<Seq<char>>, Seq<char>)
    decreases s.len(),
{
    if s.len() == 0 {
        (Seq::empty(), Seq::empty())
    } else {
        let (done, cur) = piece_state(s.drop_last());
        if s.last() == '/' {
            (done.push(cur), Seq::empty())
        } else {
            (done, cur.push(s.last()))
        }
    }
}

/// The `/`-separated pieces of `s`.
pub open spec fn pieces(s: Seq<char>) -> Seq<Seq<char>> {
    piece_state(s).0.push(piece_state(s).1)
}

/// The pieces that are path components: empty pieces (repeated or trailing
/// separators) and `.` go, but for a `.` that begins a relative path.
pub open spec fn kept_pieces(ps: Seq<Seq<char>>, relative: bool) -> Seq<Seq<char>>
    decreases ps.len(),
{
    if ps.len() == 0 {
        Seq::empty()
    } else {
        let rest = kept_pieces(ps.drop_last(), relative);
        let p = ps.last();
        if p.len() == 0 || (p == seq!['.'] && !(relative && ps.len() == 1)) {
            rest
        } else {
            rest.push(p)
        }
    }
}

/// The components of a path (`Path::components`): whether it starts at the
/// root, and its normal, `..` and leading `.` components.
pub open spec fn path_components(s: Seq<char>) -> (bool, Seq<Seq<char>>) {
    let absolute = s.len() > 0 && s[0] == '/';
    (absolute, kept_pieces(pieces(s), !absolute))
}

/// Path equality (`Path == Path`): equal components.
pub open spec fn path_eq_spec(a: Seq<char>, b: Seq<char>) -> bool {
    path_components(a) == path_components(b)
}

fn components_exec(s: &str) -> (r: (bool, Vec<Vec<char>>))
    ensures
        r.0 == path_components(s@).0,
        r.1@.map_values(|v: Vec<char>| v@) == path_components(s@).1,
{
    let v = chars_of(s);
    let absolute = v.len() > 0 && v[0] == '/';
    let mut done: Vec<Vec<char>> = Vec::new();
    let mut cur: Vec<char> = Vec::new();
    let mut i: usize = 0;
    assert(v@.take(0) =~= Seq::<char>::empty());
    assert(done@.map_values(|x: Vec<char>| x@) =~= Seq::<Seq<char>>::empty());
    while i < v.len()
        invariant
            i <= v@.len(),
            v@ == s@,
            (done@.map_values(|x: Vec<char>| x@), cur@) == piece_state(v@.take(i as int)),
        decreases v@.len() - i,
    {
        assert(v@.take(i + 1).drop_last() =~= v@.take(i as int));
        assert(v@.take(i + 1).last() == v@[i as int]);
        if v[i] == '/' {
            let ghost before = done@.map_values(|x: Vec<char>| x@);
            let c = cur;
            cur = Vec::new();
            let ghost cv = c@;
            done.push(c);
            assert(done@.map_values(|x: Vec<char>| x@) =~= before.push(cv));
            assert(cur@ =~= Seq::<char>::empty());
        } else {
            cur.push(v[i]);
        }
        i = i + 1;
    }
    assert(v@.take(v@.len() as int) =~= v@);
    let ghost ps_before = done@.map_values(|x: Vec<char>| x@);
    let ghost cv = cur@;
    done.push(cur);
    let ghost ps = pieces(s@);
    assert(done@.map_values(|x: Vec<char>| x@) =~= ps_before.push(cv));
    assert(done@.map_values(|x: Vec<char>| x@) == ps);
    let mut kept: Vec<Vec<char>> = Vec::new();
    let mut k: usize = 0;
    assert(ps.take(0) =~= Seq::<Seq<char>>::empty());
    assert(kept@.map_values(|x: Vec<char>| x@) =~= Seq::<Seq<char>>::empty());
    while k < done.len()
        invariant
            k <= done@.len(),
            done@.map_values(|x: Vec<char>| x@) == ps,
            kept@.map_values(|x: Vec<char>| x@) == kept_pieces(ps.take(k as int), !absolute),
        decreases done@.len() - k,
    {
        assert(ps.take(k + 1).drop_last() =~= ps.take(k as int));
        assert(ps.take(k + 1).last() == done@[k as int]@);
        assert(ps[k as int] == done@[k as int]@);
        let p = &done[k];
        let is_dot = p.len() == 1 && p[0] == '.';
        proof {
            if is_dot {
                assert(p@ =~= seq!['.']);
            }
        }
        if !(p.len() == 0 || (is_dot && !(!absolute && k == 0))) {
            let ghost before = kept@.map_values(|x: Vec<char>| x@);
            let c = p.clone();
            proof {
                assert(c@ == p@);
            }
            kept.push(c);
            assert(kept@.map_values(|x: Vec<char>| x@) =~= before.push(p@));
        }
        k = k + 1;
    }
    assert(ps.take(done@.len() as int) =~= ps);
    (absolute, kept)
}

/// Whether two paths are equal as paths: same components, so that repeated
/// separators, a trailing separator and inner `.` components do not count.
pub fn path_eq(a: &str, b: &str) -> (r: bool)
    ensures
        r == path_eq_spec(a@, b@),
{
    let (aa, ca) = components_exec(a);
    let (ab, cb) = components_exec(b);
    let ghost sa = ca@.map_values(|x: Vec<char>| x@);
    let ghost sb = cb@.map_values(|x: Vec<char>| x@);
    if aa != ab || ca.len() != cb.len() {
        assert(sa.len() == ca@.len() && sb.len() == cb@.len());
        return false;
    }
    let mut i: usize = 0;
    while i < ca.len()
        invariant
            i <= ca@.len(),
            ca@.len() == cb@.len(),
            sa == ca@.map_values(|x: Vec<char>| x@),
            sb == cb@.map_values(|x: Vec<char>| x@),
            sa == path_components(a@).1,
            sb == path_components(b@).1,
            path_components(a@).0 == path_components(b@).0,
            forall|j: int| 0 <= j < i ==> sa[j] == sb[j],
        decreases ca@.len() - i,
    {
        if !chars_eq(&ca[i], &cb[i]) {
            assert(sa[i as int] != sb[i as int]);
            return false;
        }
        i = i + 1;
    }
    assert(sa =~= sb);
    true
}

/// Index of the first build-info (from `i`) that maps `id` to a path equal
/// to `path`.
pub open spec fn first_matching_build(infos: Seq<BuildInfo>, id: Seq<char>, path: Seq<char>, i: int) -> Option<int>
    decreases infos.len() - i,
{
    if i < 0 || i >= infos.len() {
        None
    } else if (match lookup(infos[i].source_id_to_path@, id) {
        Some(p) => path_eq_spec(p, path),
        None => false,
    }) {
        Some(i)
    } else {
        first_matching_build(infos, id, path, i + 1)
    }
}

/// The path the first build-info (from `i`) that knows `id` gives it.
pub open spec fn first_resolution(infos: Seq<BuildInfo>, id: Seq<char>, i: int) -> Option<Seq<char>>
    decreases infos.len() - i,
{
    if i < 0 || i >= infos.len() {
        None
    } else {
        match lookup(infos[i].source_id_to_path@, id) {
            Some(p) => Some(p),
            None => first_resolution(infos, id, i + 1),
        }
    }
}

/// Look `key` up in a source-ID table.
pub fn lookup_exec<'a>(table: &'a Vec<(String, String)>, key: &str) -> (r: Option<&'a String>)
    ensures
        match lookup(table@, key@) {
            Some(p) => r matches Some(s) && s@ == p,
            None => r is None,
        },
{
    let kv = chars_of(key);
    let mut i: usize = 0;
    assert(table@.subrange(0, table@.len() as int) == table@);
    while i < table.len()
        invariant
            i <= table.len(),
            kv@ == key@,
            lookup(table@, key@) == lookup(table@.subrange(i as int, table@.len() as int), key@),
        decreases table.len() - i,
    {
        let ghost rest = table@.subrange(i as int, table@.len() as int);
        assert(rest[0] == table@[i as int]);
        assert(rest.drop_first() =~= table@.subrange(i + 1, table@.len() as int));
        let ev = chars_of(table[i].0.as_str());
        if chars_eq(&ev, &kv) {
            return Some(&table[i].1);
        }
        i = i + 1;
    }
    None
}

impl BuildInfo {
    /// Find the build-info that maps `source_id` to `expected_path` (equal
    /// as paths): the first one in order. This picks the right compilation when an artifact
    /// from an earlier incremental build references source IDs that only
    /// the earlier build-info resolves.
    pub fn find_for_source<'a>(infos: &'a [BuildInfo], source_id: &str, expected_path: &str) -> (r: Option<&'a BuildInfo>)
        ensures
            match first_matching_build(infos@, source_id@, expected_path@, 0) {
                Some(i) => r matches Some(b) && *b == infos@[i],
                None => r is None,
            },
    {
        let mut i: usize = 0;
        while i < infos.len()
            invariant
                i <= infos@.len(),
                first_matching_build(infos@, source_id@, expected_path@, 0) == first_matching_build(
                    infos@,
                    source_id@,
                    expected_path@,
                    i as int,
                ),
            decreases infos@.len() - i,
        {
            match lookup_exec(&infos[i].source_id_to_path, source_id) {
                Some(p) => {
                    if path_eq(p.as_str(), expected_path) {
                        return Some(&infos[i]);
                    }
                },
                None => {},
            }
            i = i + 1;
        }
        None
    }

    /// Resolve a `source_id` to a file path: the first build-info, in
    /// order, that maps the ID decides.
    pub fn resolve_source_id<'a>(infos: &'a [BuildInfo], source_id: &str) -> (r: Option<&'a String>)
        ensures
            match first_resolution(infos@, source_id@, 0) {
                Some(p) => r matches Some(s) && s@ == p,
                None => r is None,
            },
    {
        let mut i: usize = 0;
        while i < infos.len()
            invariant
                i <= infos@.len(),
                first_resolution(infos@, source_id@, 0) == first_resolution(
                    infos@,
                    source_id@,
                    i as int,
                ),
            decreases infos@.len() - i,
        {
            match lookup_exec(&infos[i].source_id_to_path, source_id) {
                Some(p) => {
                    return Some(p);
                },
                None => {},
            }
            i = i + 1;
        }
        None
    }
}

} // verus!
