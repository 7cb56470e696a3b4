//! Character-level string toolkit: the mathematical model of the text
//! operations the library performs (searching, splitting, trimming) and
//! verified executable counterparts over `Vec<char>`.
use vstd::prelude::*;

verus! {

// ---------------------------------------------------------------------------
// Specification model
// ---------------------------------------------------------------------------

/// `pat` occurs in `s` starting at index `i`.
pub open spec fn occurs_at(s: Seq<char>, i: int, pat: Seq<char>) -> bool {
    0 <= i && i + pat.len() <= s.len() && s.subrange(i, i + pat.len() as int) == pat
}

/// `i` is the first position where `pat` occurs in `s`.
pub open spec fn is_first_occ(s: Seq<char>, pat: Seq<char>, i: int) -> bool {
    &&& occurs_at(s, i, pat)
    &&& forall|j: int| 0 <= j < i ==> !occurs_at(s, j, pat)
}

/// `i` is the last position where `pat` occurs in `s`.
pub open spec fn is_last_occ(s: Seq<char>, pat: Seq<char>, i: int) -> bool {
    &&& occurs_at(s, i, pat)
    &&& forall|j: int| i < j <= s.len() ==> !occurs_at(s, j, pat)
}

/// `pat` occurs somewhere in `s`.
pub open spec fn contains_pat(s: Seq<char>, pat: Seq<char>) -> bool {
    exists|i: int| occurs_at(s, i, pat)
}

/// First occurrence of `pat` in `s`, as Rust's `str::find` reports it.
pub open spec fn find_spec(s: Seq<char>, pat: Seq<char>) -> Option<int> {
    if contains_pat(s, pat) {
        Some(choose|i: int| is_first_occ(s, pat, i))
    } else {
        None
    }
}

/// Last occurrence of `pat` in `s`, as Rust's `str::rfind` reports it.
pub open spec fn rfind_spec(s: Seq<char>, pat: Seq<char>) -> Option<int> {
    if contains_pat(s, pat) {
        Some(choose|i: int| is_last_occ(s, pat, i))
    } else {
        None
    }
}

/// `str::split_once(pat)`: the text before and after the first `pat`.
pub open spec fn split_once_spec(s: Seq<char>, pat: Seq<char>) -> Option<(Seq<char>, Seq<char>)> {
    match find_spec(s, pat) {
        Some(i) => Some((s.subrange(0, i), s.subrange(i + pat.len(), s.len() as int))),
        None => None,
    }
}

/// `str::rsplit_once(pat)`: the text before and after the last `pat`.
pub open spec fn rsplit_once_spec(s: Seq<char>, pat: Seq<char>) -> Option<(Seq<char>, Seq<char>)> {
    match rfind_spec(s, pat) {
        Some(i) => Some((s.subrange(0, i), s.subrange(i + pat.len(), s.len() as int))),
        None => None,
    }
}

/// The prefix of `s` before the first `pat` (all of `s` when absent); this is
/// the first item of `str::split(pat)`.
pub open spec fn before_first(s: Seq<char>, pat: Seq<char>) -> Seq<char> {
    match find_spec(s, pat) {
        Some(i) => s.subrange(0, i),
        None => s,
    }
}

/// `s` starts with `pat`.
pub open spec fn starts_with(s: Seq<char>, pat: Seq<char>) -> bool {
    pat.len() <= s.len() && s.subrange(0, pat.len() as int) == pat
}

/// `s` ends with `pat`.
pub open spec fn ends_with(s: Seq<char>, pat: Seq<char>) -> bool {
    pat.len() <= s.len() && s.subrange(s.len() - pat.len(), s.len() as int) == pat
}

/// Unicode `White_Space`, the property that `char::is_whitespace` tests.
pub open spec fn is_ws(c: char) -> bool {
    let u = c as u32;
    ||| (0x09 <= u && u <= 0x0d)
    ||| u == 0x20
    ||| u == 0x85
    ||| u == 0xa0
    ||| u == 0x1680
    ||| (0x2000 <= u && u <= 0x200a)
    ||| u == 0x2028
    ||| u == 0x2029
    ||| u == 0x202f
    ||| u == 0x205f
    ||| u == 0x3000
}

/// Number of leading whitespace characters of `s`.
pub open spec fn leading_ws(s: Seq<char>) -> nat
    decreases s.len(),
{
    if s.len() > 0 && is_ws(s[0]) {
        1 + leading_ws(s.drop_first())
    } else {
        0
    }
}

/// Number of trailing whitespace characters of `s`.
pub open spec fn trailing_ws(s: Seq<char>) -> nat
    decreases s.len(),
{
    if s.len() > 0 && is_ws(s.last()) {
        1 + trailing_ws(s.drop_last())
    } else {
        0
    }
}

/// `str::trim_end`.
pub open spec fn trim_end_spec(s: Seq<char>) -> Seq<char> {
    s.subrange(0, s.len() - trailing_ws(s))
}

/// `str::trim_start`.
pub open spec fn trim_start_spec(s: Seq<char>) -> Seq<char> {
    s.subrange(leading_ws(s) as int, s.len() as int)
}

/// `str::trim`.
pub open spec fn trim_spec(s: Seq<char>) -> Seq<char> {
    trim_end_spec(trim_start_spec(s))
}

/// Number of bytes that `c` takes in UTF-8 (`char::len_utf8`).
pub open spec fn utf8_width(c: char) -> nat {
    let u = c as u32;
    if u < 0x80 {
        1
    } else if u < 0x800 {
        2
    } else if u < 0x10000 {
        3
    } else {
        4
    }
}

/// Number of bytes that `s` takes in UTF-8 (`str::len`).
pub open spec fn byte_len(s: Seq<char>) -> nat
    decreases s.len(),
{
    if s.len() == 0 {
        0
    } else {
        byte_len(s.drop_last()) + utf8_width(s.last())
    }
}

/// Characters that `push`-ing each of `parts` in turn would produce.
pub open spec fn concat_all(parts: Seq<Seq<char>>) -> Seq<char>
    decreases parts.len(),
{
    if parts.len() == 0 {
        Seq::empty()
    } else {
        concat_all(parts.drop_last()) + parts.last()
    }
}

/// `parts` joined with `sep` between consecutive items (`[T]::join`).
pub open spec fn join_spec(parts: Seq<Seq<char>>, sep: Seq<char>) -> Seq<char>
    decreases parts.len(),
{
    if parts.len() == 0 {
        Seq::empty()
    } else if parts.len() == 1 {
        parts[0]
    } else {
        join_spec(parts.drop_last(), sep) + sep + parts.last()
    }
}

/// Decimal digits of `n` without leading zeros (`usize::to_string`).
pub open spec fn decimal(n: nat) -> Seq<char>
    decreases n,
{
    if n < 10 {
        seq![digit_char(n)]
    } else {
        decimal(n / 10).push(digit_char(n % 10))
    }
}

/// The ASCII digit for `d < 10`.
pub open spec fn digit_char(d: nat) -> char {
    (d + 48) as char
}

/// Value of a string of decimal digits.
pub open spec fn digits_value(s: Seq<char>) -> nat
    decreases s.len(),
{
    if s.len() == 0 {
        0
    } else {
        digits_value(s.drop_last()) * 10 + ((s.last() as u32) - 48) as nat
    }
}

/// `c` is an ASCII decimal digit.
pub open spec fn is_digit(c: char) -> bool {
    '0' <= c && c <= '9'
}

/// `s` without one leading `+`, if it has one.
pub open spec fn strip_plus(s: Seq<char>) -> Seq<char> {
    if s.len() > 0 && s[0] == '+' {
        s.drop_first()
    } else {
        s
    }
}

/// Every character of `s` is a decimal digit.
pub open spec fn all_digits(s: Seq<char>) -> bool {
    forall|i: int| 0 <= i < s.len() ==> is_digit(#[trigger] s[i])
}

/// `usize::from_str`: an optional `+` followed by at least one digit, and a
/// value that fits in `usize`.
pub open spec fn parse_usize_spec(s: Seq<char>) -> Option<nat> {
    let body = strip_plus(s);
    if body.len() > 0 && all_digits(body) && digits_value(body) <= usize::MAX {
        Some(digits_value(body))
    } else {
        None
    }
}

// ---------------------------------------------------------------------------
// Lemmas
// ---------------------------------------------------------------------------

/// The first occurrence found by a scan is the one `find_spec` names.
pub proof fn lemma_find_spec(s: Seq<char>, pat: Seq<char>, i: int)
    requires
        is_first_occ(s, pat, i),
    ensures
        find_spec(s, pat) == Some(i),
{
    assert(contains_pat(s, pat));
    let k = choose|k: int| is_first_occ(s, pat, k);
    assert(is_first_occ(s, pat, k));
    if k < i {
        assert(!occurs_at(s, k, pat));
    }
    if i < k {
        assert(!occurs_at(s, i, pat));
    }
}

/// The last occurrence found by a backward scan is the one `rfind_spec` names.
pub proof fn lemma_rfind_spec(s: Seq<char>, pat: Seq<char>, i: int)
    requires
        is_last_occ(s, pat, i),
    ensures
        rfind_spec(s, pat) == Some(i),
{
    assert(contains_pat(s, pat));
    let k = choose|k: int| is_last_occ(s, pat, k);
    assert(is_last_occ(s, pat, k));
    if k < i {
        assert(!occurs_at(s, i, pat));
    }
    if i < k {
        assert(!occurs_at(s, k, pat));
    }
}

/// No occurrence at any position means `find_spec` reports none.
pub proof fn lemma_find_none(s: Seq<char>, pat: Seq<char>)
    requires
        forall|j: int| 0 <= j <= s.len() ==> !occurs_at(s, j, pat),
    ensures
        find_spec(s, pat) is None,
        rfind_spec(s, pat) is None,
{
    if contains_pat(s, pat) {
        let k = choose|k: int| occurs_at(s, k, pat);
        assert(occurs_at(s, k, pat));
    }
}

pub proof fn lemma_leading_ws_bound(s: Seq<char>)
    ensures
        leading_ws(s) <= s.len(),
        forall|i: int| 0 <= i < leading_ws(s) ==> is_ws(#[trigger] s[i]),
        leading_ws(s) < s.len() ==> !is_ws(s[leading_ws(s) as int]),
    decreases s.len(),
{
    if s.len() > 0 && is_ws(s[0]) {
        lemma_leading_ws_bound(s.drop_first());
        assert forall|i: int| 0 <= i < leading_ws(s) implies is_ws(#[trigger] s[i]) by {
            if i > 0 {
                assert(s[i] == s.drop_first()[i - 1]);
            }
        }
    }
}

pub proof fn lemma_trailing_ws_bound(s: Seq<char>)
    ensures
        trailing_ws(s) <= s.len(),
        forall|i: int| s.len() - trailing_ws(s) <= i < s.len() ==> is_ws(#[trigger] s[i]),
        trailing_ws(s) < s.len() ==> !is_ws(s[s.len() - trailing_ws(s) - 1]),
    decreases s.len(),
{
    if s.len() > 0 && is_ws(s.last()) {
        lemma_trailing_ws_bound(s.drop_last());
        assert forall|i: int| s.len() - trailing_ws(s) <= i < s.len() implies is_ws(
            #[trigger] s[i],
        ) by {
            if i < s.len() - 1 {
                assert(s[i] == s.drop_last()[i]);
            }
        }
    }
}

/// Scanning characters: `leading_ws` of a sequence whose first `k` chars are
/// whitespace and whose `k`-th is not (or which has length `k`).
pub proof fn lemma_leading_ws_exact(s: Seq<char>, k: int)
    requires
        0 <= k <= s.len(),
        forall|i: int| 0 <= i < k ==> is_ws(#[trigger] s[i]),
        k < s.len() ==> !is_ws(s[k]),
    ensures
        leading_ws(s) == k,
    decreases k,
{
    if k > 0 {
        assert forall|i: int| 0 <= i < k - 1 implies is_ws(#[trigger] s.drop_first()[i]) by {
            assert(s.drop_first()[i] == s[i + 1]);
        }
        if k < s.len() {
            assert(s.drop_first()[k - 1] == s[k]);
        }
        lemma_leading_ws_exact(s.drop_first(), k - 1);
    }
}

/// Scanning from the end: `trailing_ws` of a sequence whose last `k` chars
/// are whitespace and whose char before them is not.
pub proof fn lemma_trailing_ws_exact(s: Seq<char>, k: int)
    requires
        0 <= k <= s.len(),
        forall|i: int| s.len() - k <= i < s.len() ==> is_ws(#[trigger] s[i]),
        k < s.len() ==> !is_ws(s[s.len() - k - 1]),
    ensures
        trailing_ws(s) == k,
    decreases k,
{
    if k > 0 {
        let t = s.drop_last();
        assert forall|i: int| t.len() - (k - 1) <= i < t.len() implies is_ws(#[trigger] t[i]) by {
            assert(t[i] == s[i]);
        }
        if k < s.len() {
            assert(t[t.len() - (k - 1) - 1] == s[s.len() - k - 1]);
        }
        lemma_trailing_ws_exact(t, k - 1);
    }
}

pub proof fn lemma_concat_all_push(parts: Seq<Seq<char>>, p: Seq<char>)
    ensures
        concat_all(parts.push(p)) == concat_all(parts) + p,
{
    assert(parts.push(p).drop_last() == parts);
}

pub proof fn lemma_join_push(parts: Seq<Seq<char>>, p: Seq<char>, sep: Seq<char>)
    ensures
        parts.len() == 0 ==> join_spec(parts.push(p), sep) == p,
        parts.len() > 0 ==> join_spec(parts.push(p), sep) == join_spec(parts, sep) + sep + p,
{
    assert(parts.push(p).drop_last() == parts);
    if parts.len() == 0 {
        assert(parts.push(p)[0] == p);
    }
}

pub proof fn lemma_byte_len_push(s: Seq<char>, c: char)
    ensures
        byte_len(s.push(c)) == byte_len(s) + utf8_width(c),
{
    assert(s.push(c).drop_last() == s);
}

pub proof fn lemma_byte_len_mono(s: Seq<char>, i: int, j: int)
    requires
        0 <= i <= j <= s.len(),
    ensures
        byte_len(s.take(i)) <= byte_len(s.take(j)),
        i < j ==> byte_len(s.take(i)) < byte_len(s.take(j)),
    decreases j - i,
{
    if i < j {
        lemma_byte_len_mono(s, i, j - 1);
        assert(s.take(j).drop_last() == s.take(j - 1));
    }
}

// ---------------------------------------------------------------------------
// Executable toolkit
// ---------------------------------------------------------------------------

/// Append one character to a string.
///
/// Wraps `String::push`; the contract claims that the string afterwards is
/// the old one with `c` at its end, as std documents.
#[verifier::external_body]
pub(crate) fn push_char(s: &mut String, c: char)
    ensures
        final(s)@ == old(s)@.push(c),
{
    s.push(c);
}

/// The characters of `s`.
pub fn chars_of(s: &str) -> (v: Vec<char>)
    ensures
        v@ == s@,
{
    let mut v: Vec<char> = Vec::new();
    for c in it: s.chars()
        invariant
            v@ == it.seq().take(it.index() as int),
    {
        v.push(c);
    }
    v
}

/// A string holding `v[lo..hi]`.
pub fn string_of_range(v: &Vec<char>, lo: usize, hi: usize) -> (s: String)
    requires
        lo <= hi <= v.len(),
    ensures
        s@ == v@.subrange(lo as int, hi as int),
{
    let mut s = String::new();
    let mut i = lo;
    while i < hi
        invariant
            lo <= i <= hi <= v.len(),
            s@ == v@.subrange(lo as int, i as int),
        decreases hi - i,
    {
        push_char(&mut s, v[i]);
        assert(v@.subrange(lo as int, i + 1) == v@.subrange(lo as int, i as int).push(v@[i as int]));
        i = i + 1;
    }
    s
}

/// A string holding all of `v`.
pub fn string_of(v: &Vec<char>) -> (s: String)
    ensures
        s@ == v@,
{
    let s = string_of_range(v, 0, v.len());
    assert(v@.subrange(0, v@.len() as int) == v@);
    s
}

/// Append the characters of `t` to `s`.
pub fn push_str(s: &mut String, t: &str)
    ensures
        final(s)@ == old(s)@ + t@,
{
    s.append(t);
}

/// Append `v[lo..hi]` to `s`.
pub fn push_range(s: &mut String, v: &Vec<char>, lo: usize, hi: usize)
    requires
        lo <= hi <= v.len(),
    ensures
        final(s)@ == old(s)@ + v@.subrange(lo as int, hi as int),
{
    let ghost start = s@;
    let mut i = lo;
    while i < hi
        invariant
            lo <= i <= hi <= v.len(),
            s@ == start + v@.subrange(lo as int, i as int),
        decreases hi - i,
    {
        push_char(s, v[i]);
        assert(v@.subrange(lo as int, i + 1) == v@.subrange(lo as int, i as int).push(v@[i as int]));
        i = i + 1;
    }
}

/// Whether `pat` occurs in `v` at `i`.
pub fn occurs_at_exec(v: &Vec<char>, i: usize, pat: &Vec<char>) -> (b: bool)
    ensures
        b == occurs_at(v@, i as int, pat@),
{
    if i > v.len() || pat.len() > v.len() - i {
        return false;
    }
    let mut k: usize = 0;
    while k < pat.len()
        invariant
            i + pat.len() <= v.len(),
            k <= pat.len(),
            forall|m: int| 0 <= m < k ==> v@[i + m] == pat@[m],
        decreases pat.len() - k,
    {
        if v[i + k] != pat[k] {
            assert(v@.subrange(i as int, i + pat.len())[k as int] != pat@[k as int]);
            return false;
        }
        k = k + 1;
    }
    assert(v@.subrange(i as int, i + pat.len()) =~= pat@);
    true
}

/// First occurrence of `pat` in `v` (`str::find`).
pub fn find_exec(v: &Vec<char>, pat: &Vec<char>) -> (r: Option<usize>)
    ensures
        r matches Some(i) ==> find_spec(v@, pat@) == Some(i as int) && is_first_occ(v@, pat@, i as int),
        r is None ==> find_spec(v@, pat@) is None,
{
    let mut i: usize = 0;
    loop
        invariant
            i <= v.len(),
            forall|j: int| 0 <= j < i ==> !occurs_at(v@, j, pat@),
        decreases v.len() - i,
    {
        if occurs_at_exec(v, i, pat) {
            proof {
                lemma_find_spec(v@, pat@, i as int);
            }
            return Some(i);
        }
        if i == v.len() {
            proof {
                lemma_find_none(v@, pat@);
            }
            return None;
        }
        i = i + 1;
    }
}

/// Last occurrence of `pat` in `v` (`str::rfind`).
pub fn rfind_exec(v: &Vec<char>, pat: &Vec<char>) -> (r: Option<usize>)
    ensures
        r matches Some(i) ==> rfind_spec(v@, pat@) == Some(i as int) && is_last_occ(v@, pat@, i as int),
        r is None ==> rfind_spec(v@, pat@) is None,
{
    let mut i: usize = v.len();
    loop
        invariant
            i <= v.len(),
            forall|j: int| i < j <= v.len() ==> !occurs_at(v@, j, pat@),
        decreases i,
    {
        if occurs_at_exec(v, i, pat) {
            proof {
                lemma_rfind_spec(v@, pat@, i as int);
            }
            return Some(i);
        }
        if i == 0 {
            proof {
                lemma_find_none(v@, pat@);
            }
            return None;
        }
        i = i - 1;
    }
}

/// Number of leading whitespace characters of `v[lo..hi]`.
pub fn leading_ws_exec(v: &Vec<char>, lo: usize, hi: usize) -> (n: usize)
    requires
        lo <= hi <= v.len(),
    ensures
        n == leading_ws(v@.subrange(lo as int, hi as int)),
{
    let ghost s = v@.subrange(lo as int, hi as int);
    let mut i = lo;
    while i < hi && is_ws_exec(v[i])
        invariant
            lo <= i <= hi <= v.len(),
            s == v@.subrange(lo as int, hi as int),
            forall|m: int| 0 <= m < i - lo ==> is_ws(#[trigger] s[m]),
        decreases hi - i,
    {
        i = i + 1;
    }
    proof {
        lemma_leading_ws_exact(s, i - lo);
    }
    i - lo
}

/// Number of trailing whitespace characters of `v[lo..hi]`.
pub fn trailing_ws_exec(v: &Vec<char>, lo: usize, hi: usize) -> (n: usize)
    requires
        lo <= hi <= v.len(),
    ensures
        n == trailing_ws(v@.subrange(lo as int, hi as int)),
{
    let ghost s = v@.subrange(lo as int, hi as int);
    let mut i = hi;
    while i > lo && is_ws_exec(v[i - 1])
        invariant
            lo <= i <= hi <= v.len(),
            s == v@.subrange(lo as int, hi as int),
            forall|m: int| i - lo <= m < s.len() ==> is_ws(#[trigger] s[m]),
        decreases i,
    {
        i = i - 1;
    }
    proof {
        lemma_trailing_ws_exact(s, hi - i);
    }
    hi - i
}

/// `char::is_whitespace`.
pub fn is_ws_exec(c: char) -> (b: bool)
    ensures
        b == is_ws(c),
{
    let u = c as u32;
    (0x09 <= u && u <= 0x0d) || u == 0x20 || u == 0x85 || u == 0xa0 || u == 0x1680 || (0x2000
        <= u && u <= 0x200a) || u == 0x2028 || u == 0x2029 || u == 0x202f || u == 0x205f || u
        == 0x3000
}

/// `char::len_utf8`.
pub fn utf8_width_exec(c: char) -> (n: usize)
    ensures
        n == utf8_width(c),
{
    let u = c as u32;
    if u < 0x80 {
        1
    } else if u < 0x800 {
        2
    } else if u < 0x10000 {
        3
    } else {
        4
    }
}

/// Whether `v[lo..hi]` equals `pat`.
pub fn range_eq(v: &Vec<char>, lo: usize, hi: usize, pat: &Vec<char>) -> (b: bool)
    requires
        lo <= hi <= v.len(),
    ensures
        b == (v@.subrange(lo as int, hi as int) == pat@),
{
    if hi - lo != pat.len() {
        return false;
    }
    let r = occurs_at_exec(v, lo, pat);
    r
}

/// Whether two character vectors are equal.
pub fn chars_eq(a: &Vec<char>, b: &Vec<char>) -> (r: bool)
    ensures
        r == (a@ == b@),
{
    let r = range_eq(a, 0, a.len(), b);
    assert(a@.subrange(0, a@.len() as int) == a@);
    r
}

/// Decimal rendering of `n` (`usize::to_string`).
pub fn decimal_exec(n: usize) -> (s: String)
    ensures
        s@ == decimal(n as nat),
    decreases n,
{
    if n < 10 {
        let mut s = String::new();
        push_char(&mut s, digit_exec(n));
        s
    } else {
        let mut s = decimal_exec(n / 10);
        push_char(&mut s, digit_exec(n % 10));
        s
    }
}

fn digit_exec(d: usize) -> (c: char)
    requires
        d < 10,
    ensures
        c == digit_char(d as nat),
{
    let r = (d as u8 + 48u8) as char;
    assert(r == ((d as nat + 48) as char));
    r
}

/// Parse a whole string as a `usize` the way `str::parse::<usize>` does.
pub fn parse_usize(v: &Vec<char>, lo: usize, hi: usize) -> (r: Option<usize>)
    requires
        lo <= hi <= v.len(),
    ensures
        match parse_usize_spec(v@.subrange(lo as int, hi as int)) {
            Some(n) => r == Some(n as usize),
            None => r is None,
        },
{
    let ghost s = v@.subrange(lo as int, hi as int);
    let mut start = lo;
    if start < hi && v[start] == '+' {
        start = start + 1;
    }
    let ghost body = v@.subrange(start as int, hi as int);
    proof {
        if s.len() > 0 && s[0] == '+' {
            assert(body =~= s.drop_first());
        } else {
            assert(body =~= s);
        }
    }
    if start == hi {
        assert(body.len() == 0);
        return None;
    }
    let mut acc: usize = 0;
    let mut i = start;
    while i < hi
        invariant
            lo <= start <= i <= hi <= v.len(),
            body == v@.subrange(start as int, hi as int),
            s == v@.subrange(lo as int, hi as int),
            body == strip_plus(s),
            forall|m: int| 0 <= m < i - start ==> is_digit(#[trigger] body[m]),
            acc as nat == digits_value(body.take(i - start)),
        decreases hi - i,
    {
        let c = v[i];
        if !('0' <= c && c <= '9') {
            assert(body[i - start] == c);
            assert(!is_digit(body[i - start]));
            assert(!all_digits(body));
            assert(parse_usize_spec(s) is None);
            return None;
        }
        let d = (c as u32 - 48) as usize;
        assert(body.take(i - start + 1).drop_last() == body.take(i - start));
        assert(body.take(i - start + 1).last() == c);
        if acc > (usize::MAX - d) / 10 {
            proof {
                assert(acc * 10 + d > usize::MAX) by (nonlinear_arith)
                    requires
                        acc > (usize::MAX - d) / 10,
                        d < 10,
                ;
                assert(digits_value(body.take(i - start + 1)) == acc * 10 + d);
                if all_digits(body) {
                    lemma_digits_value_prefix_mono(body, i - start + 1);
                    assert(digits_value(body) > usize::MAX);
                }
                assert(parse_usize_spec(s) is None);
            }
            return None;
        }
        assert(acc * 10 + d <= usize::MAX) by (nonlinear_arith)
            requires
                acc <= (usize::MAX - d) / 10,
                d < 10,
        ;
        acc = acc * 10 + d;
        i = i + 1;
    }
    assert(body.take(hi - start) == body);
    Some(acc)
}

/// Extending a digit string never lowers its value.
pub proof fn lemma_digits_value_prefix_mono(body: Seq<char>, k: int)
    requires
        0 <= k <= body.len(),
        forall|m: int| 0 <= m < body.len() ==> is_digit(#[trigger] body[m]),
    ensures
        digits_value(body.take(k)) <= digits_value(body),
    decreases body.len() - k,
{
    if k < body.len() {
        lemma_digits_value_prefix_mono(body, k + 1);
        assert(body.take(k + 1).drop_last() == body.take(k));
    } else {
        assert(body.take(k) == body);
    }
}


/// The strings of `parts` joined with `sep` between consecutive items.
pub fn join_texts(parts: &Vec<String>, sep: &str) -> (r: String)
    ensures
        r@ == join_spec(parts@.map_values(|s: String| s@), sep@),
{
    let ghost ps = parts@.map_values(|s: String| s@);
    let mut r = String::new();
    let mut i: usize = 0;
    while i < parts.len()
        invariant
            ps == parts@.map_values(|s: String| s@),
            i <= parts@.len(),
            r@ == join_spec(ps.take(i as int), sep@),
        decreases parts@.len() - i,
    {
        assert(ps.take(i + 1).drop_last() =~= ps.take(i as int));
        if i > 0 {
            push_str(&mut r, sep);
        }
        push_str(&mut r, parts[i].as_str());
        assert(r@ =~= join_spec(ps.take(i + 1), sep@));
        i = i + 1;
    }
    assert(ps.take(parts@.len() as int) =~= ps);
    r
}

} // verus!
