//! Identifiers typed on the command line: artifact IDs (`Name` or
//! `File.sol:Name`), storage-layout IDs, `Contract::function` IDs and
//! function targets (`name` or `name(type,type)`).
use vstd::prelude::*;
use crate::strings::{
    chars_of, concat_all, ends_with, find_exec, find_spec, is_first_occ, join_spec, lemma_find_none,
    lemma_find_spec, lemma_join_push, lemma_leading_ws_bound, lemma_trailing_ws_bound,
    leading_ws_exec, occurs_at, push_str, rfind_exec, rsplit_once_spec, split_once_spec, is_last_occ, lemma_rfind_spec,
    string_of_range, trailing_ws_exec, trim_spec, trim_start_spec,
};

verus! {

/// The `(name, file)` that an ID string like `Name` or `File.sol:Name` names:
/// it is split at its last `:` when both sides are non-empty.
pub open spec fn artifact_id_parts(id: Seq<char>) -> (Seq<char>, Option<Seq<char>>) {
    match rsplit_once_spec(id, seq![':']) {
        Some((path, name)) if path.len() > 0 && name.len() > 0 => (name, Some(path)),
        _ => (id, None),
    }
}

/// View of an optional string.
pub open spec fn opt_view(o: Option<String>) -> Option<Seq<char>> {
    match o {
        Some(s) => Some(s@),
        None => None,
    }
}

/// Split `id` at its last `:` the way artifact IDs are read.
fn split_artifact_id(id: &str) -> (r: (String, Option<String>))
    ensures
        r.0@ == artifact_id_parts(id@).0,
        opt_view(r.1) == artifact_id_parts(id@).1,
{
    let v = chars_of(id);
    let mut colon: Vec<char> = Vec::new();
    colon.push(':');
    assert(colon@ == seq![':']);
    match rfind_exec(&v, &colon) {
        Some(i) => {
            if i > 0 && i < v.len() - 1 {
                let name = string_of_range(&v, i + 1, v.len());
                let path = string_of_range(&v, 0, i);
                (name, Some(path))
            } else {
                (String::from_str(id), None)
            }
        },
        None => (String::from_str(id), None),
    }
}

/// Identifies an artifact by contract name and optional source file.
#[derive(Debug, Clone)]
pub struct ArtifactId {
    /// The contract name (required).
    pub name: String,
    /// The source file path (optional).
    pub file: Option<String>,
}

impl ArtifactId {
    /// Parse an artifact ID from a string like `Name` or `File.sol:Name`.
    pub fn new(id: &str) -> (r: Self)
        ensures
            r.name@ == artifact_id_parts(id@).0,
            opt_view(r.file) == artifact_id_parts(id@).1,
    {
        let (name, file) = split_artifact_id(id);
        ArtifactId { name, file }
    }
}

/// Identifies a storage layout by contract name and optional source file.
#[derive(Debug, Clone)]
pub struct StorageLayoutId {
    /// The contract name (required).
    pub name: String,
    /// The source file path (optional).
    pub file: Option<String>,
}

impl StorageLayoutId {
    /// Parse a storage layout ID from a string like `Name` or `File.sol:Name`.
    pub fn new(id: &str) -> (r: Self)
        ensures
            r.name@ == artifact_id_parts(id@).0,
            opt_view(r.file) == artifact_id_parts(id@).1,
    {
        let (name, file) = split_artifact_id(id);
        StorageLayoutId { name, file }
    }
}

/// The `(contract, function)` of a valid `Contract::function` ID: the text is
/// split at its first `::` and both parts are non-empty.
pub open spec fn function_id_parts(s: Seq<char>) -> Option<(Seq<char>, Seq<char>)> {
    match split_once_spec(s, seq![':', ':']) {
        Some((c, f)) if c.len() > 0 && f.len() > 0 => Some((c, f)),
        _ => None,
    }
}

/// A validated function identifier of the form `Contract::function`.
///
/// Both parts are non-empty and the `::` separator is required.
#[derive(Debug, Clone)]
pub struct FunctionID {
    contract: String,
    function: String,
}

/// The error for a string that is not a valid `Contract::function` ID.
#[derive(Debug, Clone)]
pub struct InvalidFunctionId {
    /// The rejected input.
    pub value: String,
}

/// Message that an invalid function ID error renders.
pub open spec fn invalid_function_id_message(value: Seq<char>) -> Seq<char> {
    "invalid function ID \""@ + value + "\". Expected format: Contract::function"@
}

impl InvalidFunctionId {
    /// The error message.
    pub fn to_string(&self) -> (s: String)
        ensures
            s@ == invalid_function_id_message(self.value@),
    {
        let mut s = String::new();
        push_str(&mut s, "invalid function ID \"");
        push_str(&mut s, self.value.as_str());
        push_str(&mut s, "\". Expected format: Contract::function");
        s
    }
}

impl FunctionID {
    /// The contract name component.
    pub fn contract_name(&self) -> (r: &str)
        ensures
            r@ == self.contract_spec(),
    {
        self.contract.as_str()
    }

    /// The function name component.
    pub fn function_name(&self) -> (r: &str)
        ensures
            r@ == self.function_spec(),
    {
        self.function.as_str()
    }

    /// Spec view: the contract component.
    pub closed spec fn contract_spec(&self) -> Seq<char> {
        self.contract@
    }

    /// Spec view: the function component.
    pub closed spec fn function_spec(&self) -> Seq<char> {
        self.function@
    }

    /// Render as `Contract::function`.
    pub fn to_string(&self) -> (s: String)
        ensures
            s@ == self.contract_spec() + "::"@ + self.function_spec(),
    {
        let mut s = String::new();
        push_str(&mut s, self.contract.as_str());
        push_str(&mut s, "::");
        push_str(&mut s, self.function.as_str());
        s
    }

    /// Parse `Contract::function`; the error names the rejected input.
    pub fn try_from(value: &str) -> (r: Result<FunctionID, InvalidFunctionId>)
        ensures
            match function_id_parts(value@) {
                Some((c, f)) => r matches Ok(id) && id.contract_spec() == c && id.function_spec() == f,
                None => r matches Err(e) && e.value@ == value@,
            },
    {
        let v = chars_of(value);
        let mut sep: Vec<char> = Vec::new();
        sep.push(':');
        sep.push(':');
        assert(sep@ == seq![':', ':']);
        match find_exec(&v, &sep) {
            Some(i) => {
                if i > 0 && i < v.len() - 2 {
                    let contract = string_of_range(&v, 0, i);
                    let function = string_of_range(&v, i + 2, v.len());
                    Ok(FunctionID { contract, function })
                } else {
                    Err(InvalidFunctionId { value: String::from_str(value) })
                }
            },
            None => Err(InvalidFunctionId { value: String::from_str(value) }),
        }
    }

    /// Parse an owned `Contract::function` string.
    pub fn try_from_string(value: String) -> (r: Result<FunctionID, InvalidFunctionId>)
        ensures
            match function_id_parts(value@) {
                Some((c, f)) => r matches Ok(id) && id.contract_spec() == c && id.function_spec() == f,
                None => r matches Err(e) && e.value@ == value@,
            },
    {
        Self::try_from(value.as_str())
    }
}

/// Identifies a function within a contract artifact.
pub struct FunctionId {
    artifact_id: ArtifactId,
    function: String,
}

impl FunctionId {
    /// Create a new [`FunctionId`] from an [`ArtifactId`] and function name.
    pub fn new(artifact_id: ArtifactId, function: &str) -> (r: Self)
        ensures
            r.artifact_id_spec() == artifact_id,
            r.function_spec() == function@,
    {
        FunctionId { artifact_id, function: String::from_str(function) }
    }

    /// Spec view: the artifact ID.
    pub closed spec fn artifact_id_spec(&self) -> ArtifactId {
        self.artifact_id
    }

    /// Spec view: the function name.
    pub closed spec fn function_spec(&self) -> Seq<char> {
        self.function@
    }

    /// The artifact ID identifying the contract.
    pub fn artifact_id(&self) -> (r: &ArtifactId)
        ensures
            *r == self.artifact_id_spec(),
    {
        &self.artifact_id
    }

    /// The function name.
    pub fn function_name(&self) -> (r: &str)
        ensures
            r@ == self.function_spec(),
    {
        self.function.as_str()
    }
}

// ---------------------------------------------------------------------------
// Function targets
// ---------------------------------------------------------------------------

/// The pieces of `s` separated by `c` (`str::split`).
pub open spec fn split_spec(s: Seq<char>, c: char) -> Seq<Seq<char>>
    decreases s.len(),
{
    match find_spec(s, seq![c]) {
        Some(i) => {
            if 0 <= i < s.len() {
                seq![s.subrange(0, i)] + split_spec(s.subrange(i + 1, s.len() as int), c)
            } else {
                seq![s]
            }
        },
        None => seq![s],
    }
}

/// A parameter list with the whitespace around each comma-separated type
/// removed.
pub open spec fn normalize_params(p: Seq<char>) -> Seq<char> {
    join_spec(split_spec(p, ',').map_values(|t: Seq<char>| trim_spec(t)), seq![','])
}

/// A parsed function target: a bare name or a `name(params)` signature.
#[derive(Debug, Clone)]
pub struct FunctionTarget {
    /// The function name.
    pub name: String,
    /// The normalized parameter list when the target gives one.
    pub params: Option<String>,
}

/// What a target string names: without `(` the trimmed text is the name;
/// otherwise the trimmed text before the first `(` is the name, and the text
/// between it and a final `)` is the parameter list (absent when the target
/// does not end in `)`).
pub open spec fn target_spec(t: Seq<char>) -> (Seq<char>, Option<Seq<char>>) {
    match find_spec(t, seq!['(']) {
        None => (trim_spec(t), None),
        Some(open) => {
            let rest = t.subrange(open + 1, t.len() as int);
            (
                trim_spec(t.subrange(0, open)),
                if ends_with(rest, seq![')']) {
                    Some(normalize_params(rest.subrange(0, rest.len() - 1)))
                } else {
                    None
                },
            )
        },
    }
}

/// A string holding the trimmed `v[lo..hi]`.
pub fn trimmed_range(v: &Vec<char>, lo: usize, hi: usize) -> (s: String)
    requires
        lo <= hi <= v.len(),
    ensures
        s@ == trim_spec(v@.subrange(lo as int, hi as int)),
{
    let ghost t = v@.subrange(lo as int, hi as int);
    let a = leading_ws_exec(v, lo, hi);
    proof {
        lemma_leading_ws_bound(t);
    }
    let b = trailing_ws_exec(v, lo + a, hi);
    proof {
        assert(v@.subrange(lo + a, hi as int) == trim_start_spec(t));
        lemma_trailing_ws_bound(trim_start_spec(t));
    }
    let s = string_of_range(v, lo + a, hi - b);
    assert(s@ =~= trim_spec(t));
    s
}

/// Normalize `v[lo..hi]` as a parameter list: split at commas, trim each
/// item and join with `,`.
pub fn normalize_params_exec(v: &Vec<char>, lo: usize, hi: usize) -> (s: String)
    requires
        lo <= hi <= v.len(),
    ensures
        s@ == normalize_params(v@.subrange(lo as int, hi as int)),
{
    let ghost whole = v@.subrange(lo as int, hi as int);
    proof {
        reveal_strlit(",");
    }
    let mut out = String::new();
    let mut start = lo;
    let ghost mut done: Seq<Seq<char>> = Seq::empty();
    let mut first = true;
    loop
        invariant
            first == (done.len() == 0),
            lo <= start <= hi <= v.len(),
            whole == v@.subrange(lo as int, hi as int),
            split_spec(whole, ',') == done + split_spec(v@.subrange(start as int, hi as int), ','),
            out@ == join_spec(done.map_values(|t: Seq<char>| trim_spec(t)), seq![',']),
        decreases hi - start,
    {
        let ghost rest = v@.subrange(start as int, hi as int);
        let mut k = start;
        while k < hi && v[k] != ','
            invariant
                start <= k <= hi <= v.len(),
                forall|m: int| start <= m < k ==> v@[m] != ',',
            decreases hi - k,
        {
            k = k + 1;
        }
        let piece = trimmed_range(v, start, k);
        let ghost piece_seq = v@.subrange(start as int, k as int);
        let ghost out0 = out@;
        if !first {
            push_str(&mut out, ",");
        }
        push_str(&mut out, piece.as_str());
        proof {
            let m = done.map_values(|t: Seq<char>| trim_spec(t));
            lemma_join_push(m, trim_spec(piece_seq), seq![',']);
            assert(done.push(piece_seq).map_values(|t: Seq<char>| trim_spec(t)) =~= m.push(
                trim_spec(piece_seq),
            ));
            if first {
                assert(out@ == trim_spec(piece_seq));
            } else {
                reveal_strlit(",");
                assert(","@ =~= seq![',']);
                assert(out@ == join_spec(m, seq![',']) + seq![','] + trim_spec(piece_seq));
            }
            assert(out@ == join_spec(
                done.push(piece_seq).map_values(|t: Seq<char>| trim_spec(t)),
                seq![','],
            ));
            assert forall|j: int| 0 <= j < k - start implies !occurs_at(rest, j, seq![',']) by {
                if occurs_at(rest, j, seq![',']) {
                    assert(rest.subrange(j, j + 1)[0] == rest[j]);
                    assert(rest[j] == v@[start + j]);
                }
            }
        }
        if k == hi {
            proof {
                assert forall|j: int| 0 <= j <= rest.len() implies !occurs_at(rest, j, seq![',']) by {
                    if occurs_at(rest, j, seq![',']) {
                        assert(rest.subrange(j, j + 1)[0] == rest[j]);
                        assert(rest[j] == v@[start + j]);
                    }
                }
                lemma_find_none(rest, seq![',']);
                assert(split_spec(rest, ',') == seq![rest]);
                assert(rest == piece_seq);
                assert(done + seq![rest] == done.push(piece_seq));
                assert(split_spec(whole, ',') == done.push(piece_seq));
            }
            return out;
        }
        proof {
            let j = k - start;
            assert(occurs_at(rest, j as int, seq![','])) by {
                assert(rest.subrange(j as int, j + 1) =~= seq![',']);
            }
            assert(is_first_occ(rest, seq![','], j as int));
            lemma_find_spec(rest, seq![','], j as int);
            assert(rest.subrange(0, j as int) == piece_seq);
            assert(rest.subrange(j + 1, rest.len() as int) == v@.subrange(k + 1, hi as int));
            assert(split_spec(rest, ',') == seq![piece_seq] + split_spec(
                v@.subrange(k + 1, hi as int),
                ',',
            ));
            assert(done + (seq![piece_seq] + split_spec(v@.subrange(k + 1, hi as int), ','))
                == done.push(piece_seq) + split_spec(v@.subrange(k + 1, hi as int), ','));
            done = done.push(piece_seq);
        }
        first = false;
        start = k + 1;
    }
}

/// Parse a function target: a bare name or a `name(params)` signature.
pub fn parse_function_target(target: &str) -> (r: FunctionTarget)
    ensures
        r.name@ == target_spec(target@).0,
        opt_view(r.params) == target_spec(target@).1,
{
    let v = chars_of(target);
    let mut open_paren: Vec<char> = Vec::new();
    open_paren.push('(');
    assert(open_paren@ == seq!['(']);
    match find_exec(&v, &open_paren) {
        None => {
            let name = trimmed_range(&v, 0, v.len());
            assert(v@.subrange(0, v@.len() as int) == v@);
            FunctionTarget { name, params: None }
        },
        Some(open) => {
            let name = trimmed_range(&v, 0, open);
            let ghost rest = v@.subrange(open + 1, v@.len() as int);
            let n = v.len();
            if open + 1 < n && v[n - 1] == ')' {
                let params = normalize_params_exec(&v, open + 1, n - 1);
                proof {
                    assert(rest.subrange(rest.len() - 1, rest.len() as int) =~= seq![')']);
                    assert(rest.subrange(0, rest.len() - 1) =~= v@.subrange(open + 1, n - 1));
                }
                FunctionTarget { name, params: Some(params) }
            } else {
                proof {
                    if ends_with(rest, seq![')']) {
                        assert(rest.subrange(rest.len() - 1, rest.len() as int)[0] == v@[n - 1]);
                    }
                }
                FunctionTarget { name, params: None }
            }
        },
    }
}

proof fn lemma_first_occ_exists(s: Seq<char>, pat: Seq<char>, k: int)
    requires
        occurs_at(s, k, pat),
    ensures
        exists|i: int| is_first_occ(s, pat, i),
    decreases k,
{
    if exists|j: int| 0 <= j < k && occurs_at(s, j, pat) {
        let j = choose|j: int| 0 <= j < k && occurs_at(s, j, pat);
        lemma_first_occ_exists(s, pat, j);
    } else {
        assert(is_first_occ(s, pat, k));
    }
}

proof fn lemma_last_occ_exists(s: Seq<char>, pat: Seq<char>, k: int)
    requires
        occurs_at(s, k, pat),
    ensures
        exists|i: int| is_last_occ(s, pat, i),
    decreases s.len() - k,
{
    if exists|j: int| k < j <= s.len() && occurs_at(s, j, pat) {
        let j = choose|j: int| k < j <= s.len() && occurs_at(s, j, pat);
        lemma_last_occ_exists(s, pat, j);
    } else {
        assert(is_last_occ(s, pat, k));
    }
}

/// Parsing a valid `Contract::function` ID and writing it back gives the
/// ID again.
pub proof fn lemma_function_id_round_trip(s: Seq<char>)
    requires
        function_id_parts(s) is Some,
    ensures
        function_id_parts(s) matches Some((c, f)) && c + "::"@ + f == s,
{
    let pat = seq![':', ':'];
    let k = choose|k: int| occurs_at(s, k, pat);
    lemma_first_occ_exists(s, pat, k);
    let i = choose|i: int| is_first_occ(s, pat, i);
    lemma_find_spec(s, pat, i);
    assert(s.subrange(i, i + 2) == pat);
    assert("::"@ == pat) by {
        reveal_strlit("::");
    }
    assert(s.subrange(0, i) + pat + s.subrange(i + 2, s.len() as int) =~= s);
}

/// An artifact ID's file and name, joined by `:` (or the name alone when
/// there is no file), give the ID again.
pub proof fn lemma_artifact_id_rejoin(s: Seq<char>)
    ensures
        match artifact_id_parts(s) {
            (name, Some(file)) => file + ":"@ + name == s,
            (name, None) => name == s,
        },
{
    let pat = seq![':'];
    if let Some((path, name)) = rsplit_once_spec(s, pat) {
        if path.len() > 0 && name.len() > 0 {
            let k = choose|k: int| occurs_at(s, k, pat);
            lemma_last_occ_exists(s, pat, k);
            let i = choose|i: int| is_last_occ(s, pat, i);
            lemma_rfind_spec(s, pat, i);
            assert(s.subrange(i, i + 1) == pat);
            assert(":"@ == pat) by {
                reveal_strlit(":");
            }
            assert(s.subrange(0, i) + pat + s.subrange(i + 1, s.len() as int) =~= s);
        }
    }
}

} // verus!
