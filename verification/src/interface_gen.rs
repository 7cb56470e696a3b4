//! Generating a Solidity interface from a contract's ABI: every function,
//! sorted by name, with the structs, enums and user-defined value types its
//! parameters use declared inline under local names.
use vstd::prelude::*;
use crate::external_functions::StateMutability;
use crate::order::{is_stable_order, sorted_order, stable_order};
use vstd::seq_lib::seq_to_set_is_finite;
use crate::strings::{
    all_digits, before_first, chars_eq, concat_all, join_spec, chars_of, decimal, digit_char, ends_with, find_spec, is_digit, push_str,
    rsplit_once_spec, starts_with, string_of_range,
};

verus! {

/// An ABI parameter (or tuple component): its name, canonical type, the
/// compiler's internal type, and the components of a tuple.
#[derive(Debug)]
pub struct GenParam {
    pub name: String,
    pub canonical: String,
    pub internal_type: Option<String>,
    pub components: Option<Vec<GenParam>>,
}

/// An ABI function.
#[derive(Debug)]
pub struct GenFunction {
    pub name: String,
    pub inputs: Vec<GenParam>,
    pub outputs: Vec<GenParam>,
    pub state_mutability: StateMutability,
}

/// An enum the parameters use: its local name, members and the canonical
/// type it is encoded as.
#[derive(Debug)]
pub struct EnumType {
    pub name: String,
    pub members: Vec<String>,
    pub canonical: String,
}

/// A struct the parameters use: its local name and its members as
/// `(name, type)`.
#[derive(Debug)]
pub struct StructType {
    pub name: String,
    pub members: Vec<(String, String)>,
}

/// The types registered while rendering, each map in the order of first
/// registration, and the local names given to type paths.
#[derive(Debug)]
pub struct TypeResolver {
    pub enums: Vec<(String, EnumType)>,
    pub udts: Vec<(String, String)>,
    pub structs: Vec<(String, StructType)>,
    pub type_names: Vec<(String, String)>,
    pub used_names: Vec<String>,
}

/// What the rendering knows of enums: the definitions the contract's own
/// artifact holds, in source order, and the members read for qualified
/// enums of other artifacts (none when the declaring artifact shows none).
#[derive(Debug)]
pub struct EnumSources {
    pub local: Vec<(String, Vec<String>)>,
    pub external: Vec<(String, Option<Vec<String>>)>,
}

pub type Text = Seq<char>;
pub type EnumV = (Text, Seq<Text>, Text);
pub type StructV = (Text, Seq<(Text, Text)>);

/// The resolver's state as a value.
pub struct TRState {
    pub enums: Seq<(Text, EnumV)>,
    pub udts: Seq<(Text, Text)>,
    pub structs: Seq<(Text, StructV)>,
    pub type_names: Seq<(Text, Text)>,
    pub used: Seq<Text>,
}

pub open spec fn texts(v: Seq<String>) -> Seq<Text> {
    v.map_values(|s: String| s@)
}

pub open spec fn pairs(v: Seq<(String, String)>) -> Seq<(Text, Text)> {
    v.map_values(|p: (String, String)| (p.0@, p.1@))
}

pub open spec fn enum_view(e: EnumType) -> EnumV {
    (e.name@, texts(e.members@), e.canonical@)
}

pub open spec fn struct_view(s: StructType) -> StructV {
    (s.name@, pairs(s.members@))
}

impl TypeResolver {
    pub open spec fn state(&self) -> TRState {
        TRState {
            enums: self.enums@.map_values(|e: (String, EnumType)| (e.0@, enum_view(e.1))),
            udts: pairs(self.udts@),
            structs: self.structs@.map_values(|s: (String, StructType)| (s.0@, struct_view(s.1))),
            type_names: pairs(self.type_names@),
            used: texts(self.used_names@),
        }
    }
}

// ---------------------------------------------------------------------
// Type texts.

/// `name` split before its first `[`: the base and the array suffix.
pub open spec fn split_suffix(name: Text) -> (Text, Text) {
    match find_spec(name, seq!['[']) {
        Some(i) => (name.subrange(0, i), name.subrange(i, name.len() as int)),
        None => (name, Seq::empty()),
    }
}

/// A canonical type without its array suffix.
pub open spec fn base_canonical(t: Text) -> Text {
    before_first(t, seq!['['])
}

/// An elementary (value) type.
pub open spec fn is_value_type(t: Text) -> bool {
    let b = base_canonical(t);
    !starts_with(b, "tuple"@) && !ends_with(b, "]"@) && b != "string"@ && b != "bytes"@
}

/// Parameters of these types need a data location.
pub open spec fn needs_data_location(t: Text) -> bool {
    starts_with(t, "tuple"@) || ends_with(t, "]"@) || t == "string"@ || t == "bytes"@
}

pub open spec fn digits_or_x(s: Text) -> bool {
    forall|i: int| 0 <= i < s.len() ==> is_digit(#[trigger] s[i]) || s[i] == 'x'
}

/// An internal type that names a built-in type rather than a user-defined
/// value type.
pub open spec fn is_builtin(internal: Text) -> bool {
    let b = base_canonical(internal);
    ||| b == "address"@ || b == "bool"@ || b == "string"@ || b == "bytes"@ || b == "function"@ || b == "mapping"@
    ||| starts_with(b, "uint"@) && all_digits(b.subrange(4, b.len() as int))
    ||| starts_with(b, "int"@) && all_digits(b.subrange(3, b.len() as int))
    ||| starts_with(b, "bytes"@) && all_digits(b.subrange(5, b.len() as int))
    ||| starts_with(b, "fixed"@) && digits_or_x(b.subrange(5, b.len() as int))
    ||| starts_with(b, "ufixed"@) && digits_or_x(b.subrange(6, b.len() as int))
}

pub open spec fn is_ident_char(c: char) -> bool {
    ('a' <= c && c <= 'z') || ('A' <= c && c <= 'Z') || ('0' <= c && c <= '9') || c == '_'
}

/// The identifier characters of `q`.
pub open spec fn sanitize(q: Text) -> Text
    decreases q.len(),
{
    if q.len() == 0 {
        Seq::empty()
    } else if is_ident_char(q.last()) {
        sanitize(q.drop_last()).push(q.last())
    } else {
        sanitize(q.drop_last())
    }
}

pub open spec fn mutability_suffix(m: StateMutability) -> Text {
    match m {
        StateMutability::Pure => " pure"@,
        StateMutability::View => " view"@,
        StateMutability::Payable => " payable"@,
        StateMutability::Nonpayable => Seq::empty(),
    }
}

fn same_text(a: &str, b: &str) -> (r: bool)
    ensures
        r == (a@ == b@),
{
    chars_eq(&chars_of(a), &chars_of(b))
}

fn has_prefix(v: &Vec<char>, p: &str) -> (r: bool)
    ensures
        r == starts_with(v@, p@),
{
    let pv = chars_of(p);
    if pv.len() > v.len() {
        return false;
    }
    let r = crate::strings::range_eq(v, 0, pv.len(), &pv);
    r
}

fn has_suffix(v: &Vec<char>, p: &str) -> (r: bool)
    ensures
        r == ends_with(v@, p@),
{
    let pv = chars_of(p);
    if pv.len() > v.len() {
        return false;
    }
    crate::strings::range_eq(v, v.len() - pv.len(), v.len(), &pv)
}

fn find_char(v: &Vec<char>, c: char) -> (r: Option<usize>)
    ensures
        match r {
            Some(i) => find_spec(v@, seq![c]) == Some(i as int) && i < v@.len(),
            None => find_spec(v@, seq![c]) is None,
        },
{
    let mut pat: Vec<char> = Vec::new();
    pat.push(c);
    assert(pat@ == seq![c]);
    crate::strings::find_exec(v, &pat)
}

fn split_suffix_exec(v: &Vec<char>) -> (r: (String, String))
    ensures
        (r.0@, r.1@) == split_suffix(v@),
{
    match find_char(v, '[') {
        Some(i) => (string_of_range(v, 0, i), string_of_range(v, i, v.len())),
        None => (string_of_range(v, 0, v.len()), String::new()),
    }
}

fn base_canonical_exec(v: &Vec<char>) -> (r: Vec<char>)
    ensures
        r@ == base_canonical(v@),
{
    match find_char(v, '[') {
        Some(i) => {
            let mut out: Vec<char> = Vec::new();
            let mut k: usize = 0;
            while k < i
                invariant
                    k <= i,
                    i < v@.len(),
                    out@ == v@.subrange(0, k as int),
                decreases i - k,
            {
                out.push(v[k]);
                assert(v@.subrange(0, k + 1) =~= v@.subrange(0, k as int).push(v@[k as int]));
                k = k + 1;
            }
            out
        },
        None => {
            let out = v.clone();
            assert(out@ =~= v@);
            out
        },
    }
}

fn is_value_type_exec(t: &Vec<char>) -> (r: bool)
    ensures
        r == is_value_type(t@),
{
    let b = base_canonical_exec(t);
    let s = chars_of("string");
    let y = chars_of("bytes");
    !has_prefix(&b, "tuple") && !has_suffix(&b, "]") && !chars_eq(&b, &s) && !chars_eq(&b, &y)
}

fn needs_data_location_exec(t: &Vec<char>) -> (r: bool)
    ensures
        r == needs_data_location(t@),
{
    let s = chars_of("string");
    let y = chars_of("bytes");
    has_prefix(t, "tuple") || has_suffix(t, "]") || chars_eq(t, &s) || chars_eq(t, &y)
}

fn all_from(v: &Vec<char>, lo: usize, allow_x: bool) -> (r: bool)
    requires
        lo <= v@.len(),
    ensures
        allow_x ==> r == digits_or_x(v@.subrange(lo as int, v@.len() as int)),
        !allow_x ==> r == all_digits(v@.subrange(lo as int, v@.len() as int)),
{
    let mut i: usize = lo;
    while i < v.len()
        invariant
            lo <= i <= v@.len(),
            forall|j: int| lo <= j < i ==> is_digit(#[trigger] v@[j]) || (allow_x && v@[j] == 'x'),
        decreases v@.len() - i,
    {
        let c = v[i];
        if !(('0' <= c && c <= '9') || (allow_x && c == 'x')) {
            proof {
                let s = v@.subrange(lo as int, v@.len() as int);
                assert(s[i - lo] == c);
            }
            return false;
        }
        i = i + 1;
    }
    proof {
        let s = v@.subrange(lo as int, v@.len() as int);
        assert forall|j: int| 0 <= j < s.len() implies is_digit(#[trigger] s[j]) || (allow_x && s[j] == 'x') by {
            assert(s[j] == v@[lo + j]);
        }
    }
    true
}

fn is_builtin_exec(internal: &Vec<char>) -> (r: bool)
    ensures
        r == is_builtin(internal@),
{
    let b = base_canonical_exec(internal);
    let named = chars_eq(&b, &chars_of("address")) || chars_eq(&b, &chars_of("bool")) || chars_eq(&b, &chars_of("string"))
        || chars_eq(&b, &chars_of("bytes")) || chars_eq(&b, &chars_of("function")) || chars_eq(&b, &chars_of("mapping"));
    if named {
        return true;
    }
    proof {
        reveal_strlit("uint");
        reveal_strlit("int");
        reveal_strlit("bytes");
        reveal_strlit("fixed");
        reveal_strlit("ufixed");
    }
    if has_prefix(&b, "uint") && all_from(&b, 4, false) {
        return true;
    }
    if has_prefix(&b, "int") && all_from(&b, 3, false) {
        return true;
    }
    if has_prefix(&b, "bytes") && all_from(&b, 5, false) {
        return true;
    }
    if has_prefix(&b, "fixed") && all_from(&b, 5, true) {
        return true;
    }
    if has_prefix(&b, "ufixed") {
        return all_from(&b, 6, true);
    }
    false
}

fn sanitize_exec(q: &Vec<char>) -> (r: String)
    ensures
        r@ == sanitize(q@),
{
    let mut out = String::new();
    let mut i: usize = 0;
    while i < q.len()
        invariant
            i <= q@.len(),
            out@ == sanitize(q@.subrange(0, i as int)),
        decreases q@.len() - i,
    {
        let c = q[i];
        assert(q@.subrange(0, i + 1).drop_last() =~= q@.subrange(0, i as int));
        if ('a' <= c && c <= 'z') || ('A' <= c && c <= 'Z') || ('0' <= c && c <= '9') || c == '_' {
            crate::strings::push_char(&mut out, c);
        }
        i = i + 1;
    }
    assert(q@.subrange(0, q@.len() as int) =~= q@);
    out
}

fn mutability_suffix_exec(m: StateMutability) -> (r: String)
    ensures
        r@ == mutability_suffix(m),
{
    match m {
        StateMutability::Pure => String::from_str(" pure"),
        StateMutability::View => String::from_str(" view"),
        StateMutability::Payable => String::from_str(" payable"),
        StateMutability::Nonpayable => String::new(),
    }
}

// ---------------------------------------------------------------------
// Local names.

proof fn lemma_decimal_len(n: nat)
    ensures
        decimal(n).len() >= 1,
        (n < 10) == (decimal(n).len() == 1),
    decreases n,
{
    if n >= 10 {
        lemma_decimal_len(n / 10);
    }
}

proof fn lemma_decimal_injective(a: nat, b: nat)
    requires
        decimal(a) == decimal(b),
    ensures
        a == b,
    decreases a,
{
    lemma_decimal_len(a);
    lemma_decimal_len(b);
    if a < 10 && b < 10 {
        assert(decimal(a)[0] == digit_char(a));
        assert(decimal(b)[0] == digit_char(b));
        assert(digit_char(a) as int == a + 48);
        assert(digit_char(b) as int == b + 48);
    } else if a >= 10 && b >= 10 {
        assert(decimal(a).last() == digit_char(a % 10));
        assert(decimal(b).last() == digit_char(b % 10));
        assert(digit_char(a % 10) as int == a % 10 + 48);
        assert(digit_char(b % 10) as int == b % 10 + 48);
        assert(decimal(a).drop_last() == decimal(a / 10));
        assert(decimal(b).drop_last() == decimal(b / 10));
        lemma_decimal_injective(a / 10, b / 10);
    }
}

/// The numbered variant `base_k` of a local name.
pub open spec fn cand(base: Text, k: nat) -> Text {
    base + "_"@ + decimal(k)
}

proof fn lemma_cand_injective(base: Text, a: nat, b: nat)
    requires
        cand(base, a) == cand(base, b),
    ensures
        a == b,
{
    let l = base.len() + 1;
    assert(cand(base, a).subrange(l as int, cand(base, a).len() as int) =~= decimal(a)) by {
        reveal_strlit("_");
    }
    assert(cand(base, b).subrange(l as int, cand(base, b).len() as int) =~= decimal(b)) by {
        reveal_strlit("_");
    }
    lemma_decimal_injective(a, b);
}

proof fn lemma_cand_longer(base: Text, k: nat)
    ensures
        cand(base, k) != base,
{
    reveal_strlit("_");
    lemma_decimal_len(k);
    assert(cand(base, k).len() > base.len());
}

/// `base` and its variants numbered 2 to `k`.
pub open spec fn cset(base: Text, k: nat) -> Set<Text>
    decreases k,
{
    if k <= 1 {
        set![base]
    } else {
        cset(base, (k - 1) as nat).insert(cand(base, k))
    }
}

proof fn lemma_cset(base: Text, k: nat)
    requires
        k >= 1,
    ensures
        cset(base, k).finite(),
        cset(base, k).len() == k,
        forall|x: Text| #[trigger] cset(base, k).contains(x) ==> x == base || exists|j: nat| 2 <= j <= k && x == cand(base, j),
    decreases k,
{
    if k > 1 {
        lemma_cset(base, (k - 1) as nat);
        let prev = cset(base, (k - 1) as nat);
        assert(!prev.contains(cand(base, k))) by {
            if prev.contains(cand(base, k)) {
                if cand(base, k) == base {
                    lemma_cand_longer(base, k);
                } else {
                    let j = choose|j: nat| 2 <= j <= k - 1 && cand(base, k) == cand(base, j);
                    lemma_cand_injective(base, k, j);
                }
            }
        }
    }
}

/// At most `used.len()` of `base` and its numbered variants are taken.
proof fn lemma_pigeon(used: Seq<Text>, base: Text, k: nat)
    requires
        k >= 1,
        used.contains(base),
        forall|j: nat| 2 <= j <= k ==> used.contains(#[trigger] cand(base, j)),
    ensures
        k <= used.len(),
{
    lemma_cset(base, k);
    assert(cset(base, k).subset_of(used.to_set())) by {
        assert forall|x: Text| cset(base, k).contains(x) implies used.to_set().contains(x) by {
            if x != base {
                let j = choose|j: nat| 2 <= j <= k && x == cand(base, j);
                assert(used.contains(cand(base, j)));
            }
        }
    }
    seq_to_set_is_finite(used);
    vstd::set_lib::lemma_len_subset(cset(base, k), used.to_set());
    used.lemma_cardinality_of_set();
}

/// The first numbered variant of `base`, from `k` on, that is not taken.
pub open spec fn numbered(used: Seq<Text>, base: Text, k: nat) -> Text
    decreases used.len() + 2 - k,
{
    if !used.contains(cand(base, k)) || k >= used.len() + 2 {
        cand(base, k)
    } else {
        numbered(used, base, k + 1)
    }
}

/// The first entry for `key`.
pub open spec fn lookup(m: Seq<(Text, Text)>, key: Text) -> Option<Text>
    decreases m.len(),
{
    if m.len() == 0 {
        None
    } else if m[0].0 == key {
        Some(m[0].1)
    } else {
        lookup(m.drop_first(), key)
    }
}

/// A name not taken yet for the type path `full`: its last segment; if
/// that is taken, the sanitized qualifier followed by the last segment;
/// if that is taken too, the first of `base_2`, `base_3`, ... not taken.
pub open spec fn fresh_name(used: Seq<Text>, full: Text) -> Text {
    let (q, last) = match rsplit_once_spec(full, seq!['.']) {
        Some((q, l)) => (q, l),
        None => (Seq::<char>::empty(), full),
    };
    if !used.contains(last) {
        last
    } else {
        let base = if q.len() == 0 {
            last
        } else {
            sanitize(q) + last
        };
        if !used.contains(base) {
            base
        } else {
            numbered(used, base, 2)
        }
    }
}

/// The local name of a type path: the one given before, or a fresh one,
/// which is then recorded.
pub open spec fn local_name(st: TRState, full: Text) -> (TRState, Text) {
    match lookup(st.type_names, full) {
        Some(n) => (st, n),
        None => {
            let c = fresh_name(st.used, full);
            (TRState { type_names: st.type_names.push((full, c)), used: st.used.push(c), ..st }, c)
        },
    }
}

fn decimal_u128(n: u128) -> (s: String)
    ensures
        s@ == decimal(n as nat),
    decreases n,
{
    if n < 10 {
        let mut s = String::new();
        crate::strings::push_char(&mut s, digit128(n));
        s
    } else {
        let mut s = decimal_u128(n / 10);
        crate::strings::push_char(&mut s, digit128(n % 10));
        s
    }
}

fn digit128(d: u128) -> (c: char)
    requires
        d < 10,
    ensures
        c == digit_char(d as nat),
{
    let r = (d as u8 + 48u8) as char;
    assert(r == ((d as nat + 48) as char));
    r
}

fn cand_exec(base: &String, k: u128) -> (r: String)
    ensures
        r@ == cand(base@, k as nat),
{
    let mut s = base.clone();
    push_str(&mut s, "_");
    let d = decimal_u128(k);
    push_str(&mut s, d.as_str());
    s
}

fn contains_text(v: &Vec<String>, t: &String) -> (r: bool)
    ensures
        r == texts(v@).contains(t@),
{
    let mut i: usize = 0;
    while i < v.len()
        invariant
            i <= v@.len(),
            forall|j: int| 0 <= j < i ==> texts(v@)[j] != t@,
        decreases v@.len() - i,
    {
        if same_text(v[i].as_str(), t.as_str()) {
            assert(texts(v@)[i as int] == t@);
            return true;
        }
        i = i + 1;
    }
    false
}

fn lookup_exec(m: &Vec<(String, String)>, key: &String) -> (r: Option<String>)
    ensures
        match r {
            Some(s) => lookup(pairs(m@), key@) == Some(s@),
            None => lookup(pairs(m@), key@) is None,
        },
{
    let mut i: usize = 0;
    assert(pairs(m@).subrange(0, m@.len() as int) =~= pairs(m@));
    while i < m.len()
        invariant
            i <= m@.len(),
            lookup(pairs(m@), key@) == lookup(pairs(m@).subrange(i as int, m@.len() as int), key@),
        decreases m@.len() - i,
    {
        let ghost rest = pairs(m@).subrange(i as int, m@.len() as int);
        assert(rest[0] == (m@[i as int].0@, m@[i as int].1@));
        assert(rest.drop_first() =~= pairs(m@).subrange(i + 1, m@.len() as int));
        if same_text(m[i].0.as_str(), key.as_str()) {
            return Some(m[i].1.clone());
        }
        i = i + 1;
    }
    None
}

fn fresh_name_exec(used: &Vec<String>, full: &String) -> (r: String)
    ensures
        r@ == fresh_name(texts(used@), full@),
{
    let v = chars_of(full.as_str());
    let vlen = v.len();
    let mut dot: Vec<char> = Vec::new();
    dot.push('.');
    assert(dot@ == seq!['.']);
    let (q, last) = match crate::strings::rfind_exec(&v, &dot) {
        Some(i) => {
            assert(crate::strings::occurs_at(v@, i as int, dot@));
            (string_of_range(&v, 0, i), string_of_range(&v, i + 1, vlen))
        },
        None => (String::new(), full.clone()),
    };
    if !contains_text(used, &last) {
        return last;
    }
    let qv = chars_of(q.as_str());
    let base = if qv.len() == 0 {
        last
    } else {
        let mut b = sanitize_exec(&qv);
        push_str(&mut b, last.as_str());
        b
    };
    if !contains_text(used, &base) {
        return base;
    }
    let ghost u = texts(used@);
    let ulen = used.len();
    let mut k: u128 = 2;
    let mut c = cand_exec(&base, k);
    while contains_text(used, &c)
        invariant
            u == texts(used@),
            u.len() == ulen,
            2 <= k <= u.len() + 1,
            c@ == cand(base@, k as nat),
            u.contains(base@),
            forall|j: nat| 2 <= j < k ==> u.contains(#[trigger] cand(base@, j)),
            numbered(u, base@, 2) == numbered(u, base@, k as nat),
        decreases u.len() + 2 - k,
    {
        proof {
            assert forall|j: nat| 2 <= j <= k implies u.contains(#[trigger] cand(base@, j)) by {
                if j == k {
                    assert(cand(base@, j) == c@);
                }
            }
            lemma_pigeon(u, base@, k as nat);
        }
        k = k + 1;
        c = cand_exec(&base, k);
    }
    c
}

// ---------------------------------------------------------------------
// Registering the types of parameters.

pub open spec fn has_enum(m: Seq<(Text, EnumV)>, k: Text) -> bool {
    exists|i: int| 0 <= i < m.len() && (#[trigger] m[i]).0 == k
}

pub open spec fn has_struct(m: Seq<(Text, StructV)>, k: Text) -> bool {
    exists|i: int| 0 <= i < m.len() && (#[trigger] m[i]).0 == k
}

pub open spec fn has_udt(m: Seq<(Text, Text)>, k: Text) -> bool {
    exists|i: int| 0 <= i < m.len() && (#[trigger] m[i]).0 == k
}

/// The members the contract's own artifact lists for an enum: those of the
/// last definition of that name (a later definition replaces an earlier).
pub open spec fn local_members(m: Seq<(String, Vec<String>)>, key: Text) -> Option<Seq<Text>>
    decreases m.len(),
{
    if m.len() == 0 {
        None
    } else if m.last().0@ == key {
        Some(texts(m.last().1@))
    } else {
        local_members(m.drop_last(), key)
    }
}

/// What was read for a qualified enum of another artifact.
pub open spec fn external_members(m: Seq<(String, Option<Vec<String>>)>, key: Text) -> Option<Seq<Text>>
    decreases m.len(),
{
    if m.len() == 0 {
        None
    } else if m[0].0@ == key {
        match m[0].1 {
            Some(v) => Some(texts(v@)),
            None => None,
        }
    } else {
        external_members(m.drop_first(), key)
    }
}

/// The members of an enum: from the contract's artifact, else (for a
/// qualified name) from the declaring artifact, else none.
pub open spec fn enum_members_for(env: EnumSources, full: Text) -> Seq<Text> {
    match local_members(env.local@, full) {
        Some(ms) => ms,
        None => match rsplit_once_spec(full, seq!['.']) {
            None => Seq::empty(),
            Some(_) => match external_members(env.external@, full) {
                Some(ms) => ms,
                None => Seq::empty(),
            },
        },
    }
}

/// The type text of a parameter, registering the user-defined types it
/// uses: structs (with their members, registered in turn), enums and
/// user-defined value types get a local name (keeping any array suffix);
/// built-in types keep their internal name; contract types become their
/// canonical type.
pub open spec fn reg(env: EnumSources, st: TRState, p: GenParam) -> (TRState, Text)
    decreases p,
{
    match p.internal_type {
        None => (st, p.canonical@),
        Some(it) => {
            let internal = it@;
            if starts_with(internal, "struct "@) {
                let (name, suffix) = split_suffix(internal.subrange(7, internal.len() as int));
                let (st1, local) = local_name(st, name);
                let (st2, members) = match p.components {
                    Some(cs) => reg_members(env, st1, cs@),
                    None => (st1, Seq::empty()),
                };
                let st3 = if has_struct(st2.structs, local) {
                    st2
                } else {
                    TRState { structs: st2.structs.push((local, (local, members))), ..st2 }
                };
                (st3, local + suffix)
            } else if starts_with(internal, "enum "@) {
                let (name, suffix) = split_suffix(internal.subrange(5, internal.len() as int));
                let (st1, local) = local_name(st, name);
                let members = enum_members_for(env, name);
                let st2 = if has_enum(st1.enums, local) {
                    st1
                } else {
                    TRState { enums: st1.enums.push((local, (local, members, base_canonical(p.canonical@)))), ..st1 }
                };
                (st2, local + suffix)
            } else if is_builtin(internal) {
                (st, internal)
            } else if starts_with(internal, "contract "@) || starts_with(internal, "interface "@) || starts_with(
                internal,
                "library "@,
            ) {
                (st, p.canonical@)
            } else if !internal.contains(' ') && is_value_type(p.canonical@) {
                let (name, suffix) = split_suffix(internal);
                let (st1, local) = local_name(st, name);
                let st2 = if has_udt(st1.udts, local) {
                    st1
                } else {
                    TRState { udts: st1.udts.push((local, base_canonical(p.canonical@))), ..st1 }
                };
                (st2, local + suffix)
            } else {
                (st, internal)
            }
        },
    }
}

/// The members of a struct, `(name, type)`, registering their types in
/// order.
pub open spec fn reg_members(env: EnumSources, st: TRState, cs: Seq<GenParam>) -> (TRState, Seq<(Text, Text)>)
    decreases cs,
{
    if cs.len() == 0 {
        (st, Seq::empty())
    } else {
        let (st1, t) = reg(env, st, cs[0]);
        let (st2, rest) = reg_members(env, st1, cs.drop_first());
        (st2, seq![(cs[0].name@, t)] + rest)
    }
}

fn local_members_exec(m: &Vec<(String, Vec<String>)>, key: &String) -> (r: Option<Vec<String>>)
    ensures
        match r {
            Some(v) => local_members(m@, key@) == Some(texts(v@)),
            None => local_members(m@, key@) is None,
        },
{
    let mut i: usize = m.len();
    assert(m@.take(m@.len() as int) =~= m@);
    while i > 0
        invariant
            i <= m@.len(),
            local_members(m@, key@) == local_members(m@.take(i as int), key@),
        decreases i,
    {
        let ghost pre = m@.take(i as int);
        assert(pre.last() == m@[i - 1]);
        assert(pre.drop_last() =~= m@.take(i - 1));
        if same_text(m[i - 1].0.as_str(), key.as_str()) {
            return Some(copy_texts(&m[i - 1].1));
        }
        i = i - 1;
    }
    None
}

fn copy_texts(v: &Vec<String>) -> (r: Vec<String>)
    ensures
        texts(r@) == texts(v@),
{
    let mut r: Vec<String> = Vec::new();
    let mut i: usize = 0;
    while i < v.len()
        invariant
            i <= v@.len(),
            texts(r@) == texts(v@).take(i as int),
        decreases v@.len() - i,
    {
        let ghost before = texts(r@);
        let c = v[i].clone();
        r.push(c);
        assert(texts(r@) =~= before.push(c@));
        assert(texts(v@).take(i + 1) =~= texts(v@).take(i as int).push(v@[i as int]@));
        i = i + 1;
    }
    assert(texts(v@).take(v@.len() as int) =~= texts(v@));
    r
}

fn external_members_exec(m: &Vec<(String, Option<Vec<String>>)>, key: &String) -> (r: Option<Vec<String>>)
    ensures
        match r {
            Some(v) => external_members(m@, key@) == Some(texts(v@)),
            None => external_members(m@, key@) is None,
        },
{
    let mut i: usize = 0;
    assert(m@.subrange(0, m@.len() as int) =~= m@);
    while i < m.len()
        invariant
            i <= m@.len(),
            external_members(m@, key@) == external_members(m@.subrange(i as int, m@.len() as int), key@),
        decreases m@.len() - i,
    {
        let ghost rest = m@.subrange(i as int, m@.len() as int);
        assert(rest[0] == m@[i as int]);
        assert(rest.drop_first() =~= m@.subrange(i + 1, m@.len() as int));
        if same_text(m[i].0.as_str(), key.as_str()) {
            return match &m[i].1 {
                Some(v) => Some(copy_texts(v)),
                None => None,
            };
        }
        i = i + 1;
    }
    None
}

fn enum_members_exec(env: &EnumSources, full: &String) -> (r: Vec<String>)
    ensures
        texts(r@) == enum_members_for(*env, full@),
{
    match local_members_exec(&env.local, full) {
        Some(v) => v,
        None => {
            let fv = chars_of(full.as_str());
            let mut dot: Vec<char> = Vec::new();
            dot.push('.');
            assert(dot@ == seq!['.']);
            match crate::strings::rfind_exec(&fv, &dot) {
                None => {
                    let v: Vec<String> = Vec::new();
                    assert(texts(v@) =~= Seq::empty());
                    v
                },
                Some(_) => match external_members_exec(&env.external, full) {
                    Some(v) => v,
                    None => {
                        let v: Vec<String> = Vec::new();
                        assert(texts(v@) =~= Seq::empty());
                        v
                    },
                },
            }
        },
    }
}

fn has_enum_exec(m: &Vec<(String, EnumType)>, k: &String) -> (r: bool)
    ensures
        r == has_enum(m@.map_values(|e: (String, EnumType)| (e.0@, enum_view(e.1))), k@),
{
    let ghost mv = m@.map_values(|e: (String, EnumType)| (e.0@, enum_view(e.1)));
    let mut i: usize = 0;
    while i < m.len()
        invariant
            i <= m@.len(),
            mv == m@.map_values(|e: (String, EnumType)| (e.0@, enum_view(e.1))),
            forall|j: int| 0 <= j < i ==> (#[trigger] mv[j]).0 != k@,
        decreases m@.len() - i,
    {
        if same_text(m[i].0.as_str(), k.as_str()) {
            assert(mv[i as int].0 == k@);
            return true;
        }
        i = i + 1;
    }
    false
}

fn has_struct_exec(m: &Vec<(String, StructType)>, k: &String) -> (r: bool)
    ensures
        r == has_struct(m@.map_values(|e: (String, StructType)| (e.0@, struct_view(e.1))), k@),
{
    let ghost mv = m@.map_values(|e: (String, StructType)| (e.0@, struct_view(e.1)));
    let mut i: usize = 0;
    while i < m.len()
        invariant
            i <= m@.len(),
            mv == m@.map_values(|e: (String, StructType)| (e.0@, struct_view(e.1))),
            forall|j: int| 0 <= j < i ==> (#[trigger] mv[j]).0 != k@,
        decreases m@.len() - i,
    {
        if same_text(m[i].0.as_str(), k.as_str()) {
            assert(mv[i as int].0 == k@);
            return true;
        }
        i = i + 1;
    }
    false
}

fn has_udt_exec(m: &Vec<(String, String)>, k: &String) -> (r: bool)
    ensures
        r == has_udt(pairs(m@), k@),
{
    let mut i: usize = 0;
    while i < m.len()
        invariant
            i <= m@.len(),
            forall|j: int| 0 <= j < i ==> (#[trigger] pairs(m@)[j]).0 != k@,
        decreases m@.len() - i,
    {
        if same_text(m[i].0.as_str(), k.as_str()) {
            assert(pairs(m@)[i as int].0 == k@);
            return true;
        }
        i = i + 1;
    }
    false
}

fn contains_space(v: &Vec<char>) -> (r: bool)
    ensures
        r == v@.contains(' '),
{
    let mut i: usize = 0;
    while i < v.len()
        invariant
            i <= v@.len(),
            forall|j: int| 0 <= j < i ==> v@[j] != ' ',
        decreases v@.len() - i,
    {
        if v[i] == ' ' {
            assert(v@[i as int] == ' ');
            return true;
        }
        i = i + 1;
    }
    false
}

/// The empty state.
pub open spec fn empty_state() -> TRState {
    TRState { enums: Seq::empty(), udts: Seq::empty(), structs: Seq::empty(), type_names: Seq::empty(), used: Seq::empty() }
}

impl TypeResolver {
    /// A resolver with nothing registered.
    pub fn new() -> (r: Self)
        ensures
            r.state() == empty_state(),
    {
        let r = TypeResolver {
            enums: Vec::new(),
            udts: Vec::new(),
            structs: Vec::new(),
            type_names: Vec::new(),
            used_names: Vec::new(),
        };
        assert(r.state().enums =~= Seq::empty());
        assert(r.state().udts =~= Seq::empty());
        assert(r.state().structs =~= Seq::empty());
        assert(r.state().type_names =~= Seq::empty());
        assert(r.state().used =~= Seq::empty());
        r
    }

    /// The local name of a type path (see [`local_name`]).
    pub fn local_type_name(&mut self, full: &String) -> (r: String)
        ensures
            (final(self).state(), r@) == local_name(old(self).state(), full@),
    {
        match lookup_exec(&self.type_names, full) {
            Some(n) => n,
            None => {
                let c = fresh_name_exec(&self.used_names, full);
                let ghost st0 = self.state();
                self.used_names.push(c.clone());
                self.type_names.push((full.clone(), c.clone()));
                proof {
                    assert(self.state().used =~= st0.used.push(c@));
                    assert(self.state().type_names =~= st0.type_names.push((full@, c@)));
                    assert(self.state().enums =~= st0.enums);
                    assert(self.state().udts =~= st0.udts);
                    assert(self.state().structs =~= st0.structs);
                }
                c
            },
        }
    }

    /// The type text of a parameter (see [`reg`]).
    pub fn register_type(&mut self, env: &EnumSources, p: &GenParam) -> (r: String)
        ensures
            (final(self).state(), r@) == reg(*env, old(self).state(), *p),
        decreases p, 1int,
    {
        match &p.internal_type {
            None => p.canonical.clone(),
            Some(it) => {
                let iv = chars_of(it.as_str());
                let n = iv.len();
                proof {
                    reveal_strlit("struct ");
                    reveal_strlit("enum ");
                }
                if has_prefix(&iv, "struct ") {
                    let rest = chars_of(string_of_range(&iv, 7, n).as_str());
                    let (name, suffix) = split_suffix_exec(&rest);
                    let local = self.local_type_name(&name);
                    let ghost st1 = self.state();
                    let members = match &p.components {
                        Some(cs) => self.register_members(env, cs),
                        None => {
                            let v: Vec<(String, String)> = Vec::new();
                            assert(pairs(v@) =~= Seq::empty());
                            v
                        },
                    };
                    let ghost st2 = self.state();
                    if !has_struct_exec(&self.structs, &local) {
                        let entry = (local.clone(), StructType { name: local.clone(), members });
                        let ghost ev = (entry.0@, struct_view(entry.1));
                        self.structs.push(entry);
                        proof {
                            assert(self.state().structs =~= st2.structs.push(ev));
                            assert(self.state().enums =~= st2.enums);
                            assert(self.state().udts =~= st2.udts);
                            assert(self.state().type_names =~= st2.type_names);
                            assert(self.state().used =~= st2.used);
                        }
                    }
                    let mut out = local;
                    push_str(&mut out, suffix.as_str());
                    out
                } else if has_prefix(&iv, "enum ") {
                    let rest = chars_of(string_of_range(&iv, 5, n).as_str());
                    let (name, suffix) = split_suffix_exec(&rest);
                    let local = self.local_type_name(&name);
                    let members = enum_members_exec(env, &name);
                    let ghost st1 = self.state();
                    if !has_enum_exec(&self.enums, &local) {
                        let cv = chars_of(p.canonical.as_str());
                        let bc = base_canonical_exec(&cv);
                        let entry = (local.clone(), EnumType { name: local.clone(), members, canonical: crate::strings::string_of(&bc) });
                        let ghost ev = (entry.0@, enum_view(entry.1));
                        self.enums.push(entry);
                        proof {
                            assert(self.state().enums =~= st1.enums.push(ev));
                            assert(self.state().structs =~= st1.structs);
                            assert(self.state().udts =~= st1.udts);
                            assert(self.state().type_names =~= st1.type_names);
                            assert(self.state().used =~= st1.used);
                        }
                    }
                    let mut out = local;
                    push_str(&mut out, suffix.as_str());
                    out
                } else if is_builtin_exec(&iv) {
                    it.clone()
                } else if has_prefix(&iv, "contract ") || has_prefix(&iv, "interface ") || has_prefix(&iv, "library ") {
                    p.canonical.clone()
                } else if !contains_space(&iv) && is_value_type_exec(&chars_of(p.canonical.as_str())) {
                    let (name, suffix) = split_suffix_exec(&iv);
                    let local = self.local_type_name(&name);
                    let ghost st1 = self.state();
                    if !has_udt_exec(&self.udts, &local) {
                        let cv = chars_of(p.canonical.as_str());
                        let bc = base_canonical_exec(&cv);
                        let entry = (local.clone(), crate::strings::string_of(&bc));
                        let ghost ev = (entry.0@, entry.1@);
                        self.udts.push(entry);
                        proof {
                            assert(self.state().udts =~= st1.udts.push(ev));
                            assert(self.state().structs =~= st1.structs);
                            assert(self.state().enums =~= st1.enums);
                            assert(self.state().type_names =~= st1.type_names);
                            assert(self.state().used =~= st1.used);
                        }
                    }
                    let mut out = local;
                    push_str(&mut out, suffix.as_str());
                    out
                } else {
                    it.clone()
                }
            },
        }
    }

    /// The members of a struct (see [`reg_members`]).
    pub fn register_members(&mut self, env: &EnumSources, cs: &Vec<GenParam>) -> (r: Vec<(String, String)>)
        ensures
            (final(self).state(), pairs(r@)) == reg_members(*env, old(self).state(), cs@),
        decreases cs, 0int,
    {
        let ghost target = reg_members(*env, self.state(), cs@);
        let mut out: Vec<(String, String)> = Vec::new();
        let mut i: usize = 0;
        assert(cs@.subrange(0, cs@.len() as int) =~= cs@);
        assert(pairs(out@) + target.1 =~= target.1);
        while i < cs.len()
            invariant
                i <= cs@.len(),
                reg_members(*env, self.state(), cs@.subrange(i as int, cs@.len() as int)).0 == target.0,
                pairs(out@) + reg_members(*env, self.state(), cs@.subrange(i as int, cs@.len() as int)).1 == target.1,
            decreases cs@.len() - i,
        {
            assert(decreases_to!(cs => cs@[i as int]));
            let ghost rest = cs@.subrange(i as int, cs@.len() as int);
            assert(rest[0] == cs@[i as int]);
            assert(rest.drop_first() =~= cs@.subrange(i + 1, cs@.len() as int));
            let ghost st0 = self.state();
            let t = self.register_type(env, &cs[i]);
            let ghost before = pairs(out@);
            out.push((cs[i].name.clone(), t));
            proof {
                let tail = reg_members(*env, self.state(), rest.drop_first()).1;
                assert(pairs(out@) =~= before.push((cs@[i as int].name@, t@)));
                assert(before + (seq![(cs@[i as int].name@, t@)] + tail) =~= pairs(out@) + tail);
            }
            i = i + 1;
        }
        proof {
            assert(cs@.subrange(i as int, cs@.len() as int) =~= Seq::<GenParam>::empty());
            assert(pairs(out@) + Seq::<(Text, Text)>::empty() =~= pairs(out@));
        }
        out
    }
}

// ---------------------------------------------------------------------
// Rendering.

/// A parameter as declared: its type, ` memory` where a data location is
/// needed, and its name if it has one.
pub open spec fn param_piece(p: GenParam, ty: Text) -> Text {
    let loc = if needs_data_location(p.canonical@) {
        " memory"@
    } else {
        Seq::empty()
    };
    if p.name@.len() == 0 {
        ty + loc
    } else {
        ty + loc + " "@ + p.name@
    }
}

pub open spec fn reg_params(env: EnumSources, st: TRState, ps: Seq<GenParam>) -> (TRState, Seq<Text>)
    decreases ps.len(),
{
    if ps.len() == 0 {
        (st, Seq::empty())
    } else {
        let (st1, t) = reg(env, st, ps[0]);
        let (st2, rest) = reg_params(env, st1, ps.drop_first());
        (st2, seq![param_piece(ps[0], t)] + rest)
    }
}

/// A parameter list, comma separated.
pub open spec fn params_line(env: EnumSources, st: TRState, ps: Seq<GenParam>) -> (TRState, Text) {
    let (st1, pieces) = reg_params(env, st, ps);
    (st1, join_spec(pieces, ", "@))
}

/// The declaration of a function in the interface.
pub open spec fn fn_line(env: EnumSources, st: TRState, f: GenFunction) -> (TRState, Text) {
    let (st1, ins) = params_line(env, st, f.inputs@);
    let head = "    function "@ + f.name@ + "("@ + ins + ") external"@ + mutability_suffix(f.state_mutability);
    if f.outputs@.len() == 0 {
        (st1, head + ";\n"@)
    } else {
        let (st2, outs) = params_line(env, st1, f.outputs@);
        (st2, head + " returns ("@ + outs + ")"@ + ";\n"@)
    }
}

/// The declaration generated for a function: its name and parameters, then
/// ` external` and the mutability (` pure`, ` view`, ` payable`, or nothing
/// for a nonpayable function), then its outputs when it has any.
pub proof fn lemma_function_declaration(env: EnumSources, st: TRState, f: GenFunction)
    ensures
        ({
            let (st1, ins) = params_line(env, st, f.inputs@);
            let m = match f.state_mutability {
                StateMutability::Pure => " pure"@,
                StateMutability::View => " view"@,
                StateMutability::Payable => " payable"@,
                StateMutability::Nonpayable => ""@,
            };
            let head = "    function "@ + f.name@ + "("@ + ins + ") external"@ + m;
            fn_line(env, st, f).1 == if f.outputs@.len() == 0 {
                head + ";\n"@
            } else {
                head + " returns ("@ + params_line(env, st1, f.outputs@).1 + ")"@ + ";\n"@
            }
        }),
{
    reveal_strlit("");
    assert(""@ =~= Seq::<char>::empty());
}

/// The declarations of the functions `fs[o[0]]`, ..., `fs[o[k - 1]]`, in
/// that order.
pub open spec fn fn_lines(env: EnumSources, st: TRState, fs: Seq<GenFunction>, o: Seq<usize>, k: int) -> (TRState, Seq<Text>)
    decreases k,
{
    if k <= 0 {
        (st, Seq::empty())
    } else {
        let (st1, ls) = fn_lines(env, st, fs, o, k - 1);
        let (st2, l) = fn_line(env, st1, fs[o[k - 1] as int]);
        (st2, ls.push(l))
    }
}

pub open spec fn enum_decl(e: EnumV) -> Text {
    if e.1.len() == 0 {
        "    type "@ + e.0 + " is "@ + e.2 + ";\n"@
    } else {
        "    enum "@ + e.0 + " {\n"@ + join_spec(e.1.map_values(|m: Text| "        "@ + m), ",\n"@) + "\n"@ + "    }\n"@
    }
}

pub open spec fn struct_decl(s: StructV) -> Text {
    "    struct "@ + s.0 + " {\n"@ + concat_all(s.1.map_values(|m: (Text, Text)| "        "@ + m.1 + " "@ + m.0 + ";\n"@))
        + "    }\n"@
}

pub open spec fn udt_decl(u: (Text, Text)) -> Text {
    "    type "@ + u.0 + " is "@ + u.1 + ";\n"@
}

/// The interface: a header, the enums and value types by name, the
/// structs by name, then the functions sorted by name.
pub open spec fn interface_text(iname: Text, env: EnumSources, fs: Seq<GenFunction>) -> Text {
    let o = sorted_order(fs.map_values(|f: GenFunction| f.name@), false);
    let (st, lines) = fn_lines(env, empty_state(), fs, o, fs.len() as int);
    let oe = sorted_order(st.enums.map_values(|e: (Text, EnumV)| e.0), false);
    let ou = sorted_order(st.udts.map_values(|u: (Text, Text)| u.0), false);
    let os = sorted_order(st.structs.map_values(|x: (Text, StructV)| x.0), false);
    let enums = concat_all(Seq::new(oe.len(), |k: int| enum_decl(st.enums[oe[k] as int].1)));
    let udts = concat_all(Seq::new(ou.len(), |k: int| udt_decl(st.udts[ou[k] as int])));
    let structs = join_spec(Seq::new(os.len(), |k: int| struct_decl(st.structs[os[k] as int].1)), "\n"@);
    let has_aliases = st.enums.len() > 0 || st.udts.len() > 0;
    let has_types = has_aliases || st.structs.len() > 0;
    "// SPDX-License-Identifier: MIT\npragma solidity ^0.8.0;\n\ninterface "@ + iname + " {\n"@ + enums + udts + (if has_aliases {
        "\n"@
    } else {
        Seq::empty()
    }) + structs + (if has_types && lines.len() > 0 {
        "\n"@
    } else {
        Seq::empty()
    }) + concat_all(lines) + "}\n"@
}

impl TypeResolver {
    fn render_params(&mut self, env: &EnumSources, ps: &Vec<GenParam>) -> (r: String)
        ensures
            (final(self).state(), r@) == params_line(*env, old(self).state(), ps@),
    {
        let ghost target = reg_params(*env, self.state(), ps@);
        let mut pieces: Vec<String> = Vec::new();
        let mut i: usize = 0;
        assert(ps@.subrange(0, ps@.len() as int) =~= ps@);
        assert(texts(pieces@) + target.1 =~= target.1);
        while i < ps.len()
            invariant
                i <= ps@.len(),
                reg_params(*env, self.state(), ps@.subrange(i as int, ps@.len() as int)).0 == target.0,
                texts(pieces@) + reg_params(*env, self.state(), ps@.subrange(i as int, ps@.len() as int)).1 == target.1,
            decreases ps@.len() - i,
        {
            let ghost rest = ps@.subrange(i as int, ps@.len() as int);
            assert(rest[0] == ps@[i as int]);
            assert(rest.drop_first() =~= ps@.subrange(i + 1, ps@.len() as int));
            let p = &ps[i];
            let ty = self.register_type(env, p);
            let cv = chars_of(p.canonical.as_str());
            let mut piece = ty;
            if needs_data_location_exec(&cv) {
                push_str(&mut piece, " memory");
            }
            let nv = chars_of(p.name.as_str());
            if nv.len() > 0 {
                push_str(&mut piece, " ");
                push_str(&mut piece, p.name.as_str());
            }
            proof {
                let loc = if needs_data_location(p.canonical@) {
                    " memory"@
                } else {
                    Seq::empty()
                };
                assert(p.name@.len() == 0 ==> piece@ =~= ty@ + loc);
                assert(p.name@.len() != 0 ==> piece@ =~= ty@ + loc + " "@ + p.name@);
            }
            let ghost before = texts(pieces@);
            pieces.push(piece);
            proof {
                let tail = reg_params(*env, self.state(), rest.drop_first()).1;
                assert(texts(pieces@) =~= before.push(piece@));
                assert(before + (seq![piece@] + tail) =~= texts(pieces@) + tail);
            }
            i = i + 1;
        }
        proof {
            assert(ps@.subrange(i as int, ps@.len() as int) =~= Seq::<GenParam>::empty());
            assert(texts(pieces@) + Seq::<Text>::empty() =~= texts(pieces@));
            assert(pieces@.map_values(|s: String| s@) =~= texts(pieces@));
        }
        crate::strings::join_texts(&pieces, ", ")
    }

    /// The declaration of a function (see [`fn_line`]).
    pub fn render_function(&mut self, env: &EnumSources, f: &GenFunction) -> (r: String)
        ensures
            (final(self).state(), r@) == fn_line(*env, old(self).state(), *f),
    {
        let ins = self.render_params(env, &f.inputs);
        let mut line = String::from_str("    function ");
        push_str(&mut line, f.name.as_str());
        push_str(&mut line, "(");
        push_str(&mut line, ins.as_str());
        push_str(&mut line, ") external");
        let m = mutability_suffix_exec(f.state_mutability);
        push_str(&mut line, m.as_str());
        if f.outputs.len() > 0 {
            let outs = self.render_params(env, &f.outputs);
            push_str(&mut line, " returns (");
            push_str(&mut line, outs.as_str());
            push_str(&mut line, ")");
        }
        push_str(&mut line, ";\n");
        line
    }
}

fn enum_decl_exec(e: &EnumType) -> (r: String)
    ensures
        r@ == enum_decl(enum_view(*e)),
{
    if e.members.len() == 0 {
        let mut s = String::from_str("    type ");
        push_str(&mut s, e.name.as_str());
        push_str(&mut s, " is ");
        push_str(&mut s, e.canonical.as_str());
        push_str(&mut s, ";\n");
        return s;
    }
    let mut items: Vec<String> = Vec::new();
    let mut i: usize = 0;
    while i < e.members.len()
        invariant
            i <= e.members@.len(),
            texts(items@) == texts(e.members@).take(i as int).map_values(|m: Text| "        "@ + m),
        decreases e.members@.len() - i,
    {
        let mut item = String::from_str("        ");
        push_str(&mut item, e.members[i].as_str());
        let ghost before = texts(items@);
        items.push(item);
        assert(texts(items@) =~= before.push(item@));
        assert(texts(e.members@).take(i + 1).map_values(|m: Text| "        "@ + m) =~= texts(e.members@).take(i as int).map_values(
            |m: Text| "        "@ + m,
        ).push("        "@ + e.members@[i as int]@));
        i = i + 1;
    }
    assert(texts(e.members@).take(e.members@.len() as int) =~= texts(e.members@));
    assert(items@.map_values(|s: String| s@) =~= texts(items@));
    let body = crate::strings::join_texts(&items, ",\n");
    let mut s = String::from_str("    enum ");
    push_str(&mut s, e.name.as_str());
    push_str(&mut s, " {\n");
    push_str(&mut s, body.as_str());
    push_str(&mut s, "\n");
    push_str(&mut s, "    }\n");
    s
}

fn struct_decl_exec(x: &StructType) -> (r: String)
    ensures
        r@ == struct_decl(struct_view(*x)),
{
    let mut s = String::from_str("    struct ");
    push_str(&mut s, x.name.as_str());
    push_str(&mut s, " {\n");
    let ghost head = s@;
    let ghost items = pairs(x.members@).map_values(|m: (Text, Text)| "        "@ + m.1 + " "@ + m.0 + ";\n"@);
    let mut i: usize = 0;
    while i < x.members.len()
        invariant
            i <= x.members@.len(),
            items == pairs(x.members@).map_values(|m: (Text, Text)| "        "@ + m.1 + " "@ + m.0 + ";\n"@),
            s@ == head + concat_all(items.take(i as int)),
        decreases x.members@.len() - i,
    {
        let ghost before = s@;
        push_str(&mut s, "        ");
        push_str(&mut s, x.members[i].1.as_str());
        push_str(&mut s, " ");
        push_str(&mut s, x.members[i].0.as_str());
        push_str(&mut s, ";\n");
        proof {
            assert(items.take(i + 1) =~= items.take(i as int).push(items[i as int]));
            crate::strings::lemma_concat_all_push(items.take(i as int), items[i as int]);
            assert(s@ =~= before + items[i as int]);
        }
        i = i + 1;
    }
    assert(items.take(x.members@.len() as int) =~= items);
    push_str(&mut s, "    }\n");
    s
}

fn udt_decl_exec(u: &(String, String)) -> (r: String)
    ensures
        r@ == udt_decl((u.0@, u.1@)),
{
    let mut s = String::from_str("    type ");
    push_str(&mut s, u.0.as_str());
    push_str(&mut s, " is ");
    push_str(&mut s, u.1.as_str());
    push_str(&mut s, ";\n");
    s
}

fn keys_of_enums(m: &Vec<(String, EnumType)>) -> (r: Vec<Vec<char>>)
    ensures
        r@.map_values(|k: Vec<char>| k@) == m@.map_values(|e: (String, EnumType)| (e.0@, enum_view(e.1))).map_values(|e: (Text, EnumV)| e.0),
{
    let mut r: Vec<Vec<char>> = Vec::new();
    let mut i: usize = 0;
    while i < m.len()
        invariant
            i <= m@.len(),
            r@.map_values(|k: Vec<char>| k@) == m@.take(i as int).map_values(|e: (String, EnumType)| e.0@),
        decreases m@.len() - i,
    {
        let k = chars_of(m[i].0.as_str());
        let ghost before = r@.map_values(|k: Vec<char>| k@);
        r.push(k);
        assert(r@.map_values(|k: Vec<char>| k@) =~= before.push(k@));
        assert(m@.take(i + 1).map_values(|e: (String, EnumType)| e.0@) =~= m@.take(i as int).map_values(|e: (String, EnumType)| e.0@).push(
            m@[i as int].0@,
        ));
        i = i + 1;
    }
    assert(m@.take(m@.len() as int) =~= m@);
    assert(m@.map_values(|e: (String, EnumType)| (e.0@, enum_view(e.1))).map_values(|e: (Text, EnumV)| e.0) =~= m@.map_values(
        |e: (String, EnumType)| e.0@,
    ));
    r
}

fn keys_of_structs(m: &Vec<(String, StructType)>) -> (r: Vec<Vec<char>>)
    ensures
        r@.map_values(|k: Vec<char>| k@) == m@.map_values(|e: (String, StructType)| (e.0@, struct_view(e.1))).map_values(
            |e: (Text, StructV)| e.0,
        ),
{
    let mut r: Vec<Vec<char>> = Vec::new();
    let mut i: usize = 0;
    while i < m.len()
        invariant
            i <= m@.len(),
            r@.map_values(|k: Vec<char>| k@) == m@.take(i as int).map_values(|e: (String, StructType)| e.0@),
        decreases m@.len() - i,
    {
        let k = chars_of(m[i].0.as_str());
        let ghost before = r@.map_values(|k: Vec<char>| k@);
        r.push(k);
        assert(r@.map_values(|k: Vec<char>| k@) =~= before.push(k@));
        assert(m@.take(i + 1).map_values(|e: (String, StructType)| e.0@) =~= m@.take(i as int).map_values(
            |e: (String, StructType)| e.0@,
        ).push(m@[i as int].0@));
        i = i + 1;
    }
    assert(m@.take(m@.len() as int) =~= m@);
    assert(m@.map_values(|e: (String, StructType)| (e.0@, struct_view(e.1))).map_values(|e: (Text, StructV)| e.0) =~= m@.map_values(
        |e: (String, StructType)| e.0@,
    ));
    r
}

fn keys_of_pairs(m: &Vec<(String, String)>) -> (r: Vec<Vec<char>>)
    ensures
        r@.map_values(|k: Vec<char>| k@) == pairs(m@).map_values(|u: (Text, Text)| u.0),
{
    let mut r: Vec<Vec<char>> = Vec::new();
    let mut i: usize = 0;
    while i < m.len()
        invariant
            i <= m@.len(),
            r@.map_values(|k: Vec<char>| k@) == m@.take(i as int).map_values(|e: (String, String)| e.0@),
        decreases m@.len() - i,
    {
        let k = chars_of(m[i].0.as_str());
        let ghost before = r@.map_values(|k: Vec<char>| k@);
        r.push(k);
        assert(r@.map_values(|k: Vec<char>| k@) =~= before.push(k@));
        assert(m@.take(i + 1).map_values(|e: (String, String)| e.0@) =~= m@.take(i as int).map_values(|e: (String, String)| e.0@).push(
            m@[i as int].0@,
        ));
        i = i + 1;
    }
    assert(m@.take(m@.len() as int) =~= m@);
    assert(pairs(m@).map_values(|u: (Text, Text)| u.0) =~= m@.map_values(|e: (String, String)| e.0@));
    r
}

fn keys_of_functions(fs: &Vec<GenFunction>) -> (r: Vec<Vec<char>>)
    ensures
        r@.map_values(|k: Vec<char>| k@) == fs@.map_values(|f: GenFunction| f.name@),
{
    let mut r: Vec<Vec<char>> = Vec::new();
    let mut i: usize = 0;
    while i < fs.len()
        invariant
            i <= fs@.len(),
            r@.map_values(|k: Vec<char>| k@) == fs@.take(i as int).map_values(|f: GenFunction| f.name@),
        decreases fs@.len() - i,
    {
        let k = chars_of(fs[i].name.as_str());
        let ghost before = r@.map_values(|k: Vec<char>| k@);
        r.push(k);
        assert(r@.map_values(|k: Vec<char>| k@) =~= before.push(k@));
        assert(fs@.take(i + 1).map_values(|f: GenFunction| f.name@) =~= fs@.take(i as int).map_values(|f: GenFunction| f.name@).push(
            fs@[i as int].name@,
        ));
        i = i + 1;
    }
    assert(fs@.take(fs@.len() as int) =~= fs@);
    r
}

/// The source of the interface `iname` for the functions of an ABI (see
/// [`interface_text`]).
pub fn render_interface(iname: &String, fs: &Vec<GenFunction>, env: &EnumSources) -> (r: String)
    ensures
        r@ == interface_text(iname@, *env, fs@),
{
    let fkeys = keys_of_functions(fs);
    let o = stable_order(&fkeys, false);
    let ghost ov = o@;
    let mut res = TypeResolver::new();
    let mut lines: Vec<String> = Vec::new();
    let mut k: usize = 0;
    assert(texts(lines@) =~= Seq::empty());
    while k < o.len()
        invariant
            ov == o@,
            ov == sorted_order(fs@.map_values(|f: GenFunction| f.name@), false),
            is_stable_order(fs@.map_values(|f: GenFunction| f.name@), ov, false),
            k <= ov.len(),
            (res.state(), texts(lines@)) == fn_lines(*env, empty_state(), fs@, ov, k as int),
        decreases ov.len() - k,
    {
        assert(ov[k as int] < fs@.len());
        let line = res.render_function(env, &fs[o[k]]);
        let ghost before = texts(lines@);
        lines.push(line);
        assert(texts(lines@) =~= before.push(line@));
        k = k + 1;
    }
    assert(ov.len() == fs@.len());
    let ghost st = res.state();
    let ghost lv = texts(lines@);
    let ek = keys_of_enums(&res.enums);
    let oe = stable_order(&ek, false);
    let uk = keys_of_pairs(&res.udts);
    let ou = stable_order(&uk, false);
    let sk = keys_of_structs(&res.structs);
    let os = stable_order(&sk, false);
    let mut out = String::from_str("// SPDX-License-Identifier: MIT\npragma solidity ^0.8.0;\n\ninterface ");
    push_str(&mut out, iname.as_str());
    push_str(&mut out, " {\n");
    let ghost head = out@;
    let ghost es = Seq::new(oe@.len(), |j: int| enum_decl(st.enums[oe@[j] as int].1));
    let mut j: usize = 0;
    while j < oe.len()
        invariant
            st == res.state(),
            es == Seq::new(oe@.len(), |j: int| enum_decl(st.enums[oe@[j] as int].1)),
            is_stable_order(st.enums.map_values(|e: (Text, EnumV)| e.0), oe@, false),
            j <= oe@.len(),
            out@ == head + concat_all(es.take(j as int)),
        decreases oe@.len() - j,
    {
        assert(oe@[j as int] < st.enums.len());
        let d = enum_decl_exec(&res.enums[oe[j]].1);
        let ghost before = out@;
        push_str(&mut out, d.as_str());
        proof {
            assert(es.take(j + 1) =~= es.take(j as int).push(es[j as int]));
            crate::strings::lemma_concat_all_push(es.take(j as int), es[j as int]);
        }
        j = j + 1;
    }
    assert(es.take(oe@.len() as int) =~= es);
    let ghost head2 = out@;
    let ghost us = Seq::new(ou@.len(), |j: int| udt_decl(st.udts[ou@[j] as int]));
    let mut j: usize = 0;
    while j < ou.len()
        invariant
            st == res.state(),
            us == Seq::new(ou@.len(), |j: int| udt_decl(st.udts[ou@[j] as int])),
            is_stable_order(st.udts.map_values(|u: (Text, Text)| u.0), ou@, false),
            j <= ou@.len(),
            out@ == head2 + concat_all(us.take(j as int)),
        decreases ou@.len() - j,
    {
        assert(ou@[j as int] < st.udts.len());
        let d = udt_decl_exec(&res.udts[ou[j]]);
        push_str(&mut out, d.as_str());
        proof {
            assert(us.take(j + 1) =~= us.take(j as int).push(us[j as int]));
            crate::strings::lemma_concat_all_push(us.take(j as int), us[j as int]);
        }
        j = j + 1;
    }
    assert(us.take(ou@.len() as int) =~= us);
    let has_aliases = res.enums.len() > 0 || res.udts.len() > 0;
    if has_aliases {
        push_str(&mut out, "\n");
    }
    let ghost ss = Seq::new(os@.len(), |j: int| struct_decl(st.structs[os@[j] as int].1));
    let mut decls: Vec<String> = Vec::new();
    let mut j: usize = 0;
    while j < os.len()
        invariant
            st == res.state(),
            ss == Seq::new(os@.len(), |j: int| struct_decl(st.structs[os@[j] as int].1)),
            is_stable_order(st.structs.map_values(|x: (Text, StructV)| x.0), os@, false),
            j <= os@.len(),
            texts(decls@) == ss.take(j as int),
        decreases os@.len() - j,
    {
        assert(os@[j as int] < st.structs.len());
        let d = struct_decl_exec(&res.structs[os[j]].1);
        let ghost before = texts(decls@);
        decls.push(d);
        assert(texts(decls@) =~= before.push(d@));
        assert(ss.take(j + 1) =~= ss.take(j as int).push(ss[j as int]));
        j = j + 1;
    }
    assert(ss.take(os@.len() as int) =~= ss);
    assert(decls@.map_values(|s: String| s@) =~= texts(decls@));
    let body = crate::strings::join_texts(&decls, "\n");
    push_str(&mut out, body.as_str());
    let has_types = has_aliases || res.structs.len() > 0;
    if has_types && lines.len() > 0 {
        push_str(&mut out, "\n");
    }
    let ghost head3 = out@;
    let mut j: usize = 0;
    while j < lines.len()
        invariant
            lv == texts(lines@),
            j <= lines@.len(),
            out@ == head3 + concat_all(lv.take(j as int)),
        decreases lines@.len() - j,
    {
        push_str(&mut out, lines[j].as_str());
        proof {
            assert(lv.take(j + 1) =~= lv.take(j as int).push(lv[j as int]));
            crate::strings::lemma_concat_all_push(lv.take(j as int), lv[j as int]);
        }
        j = j + 1;
    }
    assert(lv.take(lines@.len() as int) =~= lv);
    push_str(&mut out, "}\n");
    out
}

/// The output of an interface generation.
#[derive(Debug)]
pub struct InterfaceGeneratorOutput {
    pub contract_name: String,
    pub interface_name: String,
    pub source: String,
}

/// The interface name for a contract: `I` and the contract's name.
pub open spec fn interface_name_of(contract: Text) -> Text {
    "I"@ + contract
}

impl InterfaceGeneratorOutput {
    /// The contract the interface was generated from, e.g. `Pool`.
    pub fn contract_name(&self) -> (r: &str)
        ensures
            r@ == self.contract_name@,
    {
        self.contract_name.as_str()
    }

    /// The generated interface name, e.g. `IPool`.
    pub fn interface_name(&self) -> (r: &str)
        ensures
            r@ == self.interface_name@,
    {
        self.interface_name.as_str()
    }

    /// The interface source.
    pub fn to_string(&self) -> (r: String)
        ensures
            r@ == self.source@,
    {
        self.source.clone()
    }
}

/// Generate the interface `I<contract>` from the contract's ABI functions
/// and what is known of the enums they use.
pub fn generate_interface(contract: &String, fs: &Vec<GenFunction>, env: &EnumSources) -> (r: InterfaceGeneratorOutput)
    ensures
        r.contract_name@ == contract@,
        r.interface_name@ == interface_name_of(contract@),
        r.source@ == interface_text(interface_name_of(contract@), *env, fs@),
{
    let mut iname = String::from_str("I");
    push_str(&mut iname, contract.as_str());
    let source = render_interface(&iname, fs, env);
    InterfaceGeneratorOutput { contract_name: contract.clone(), interface_name: iname, source }
}

} // verus!
