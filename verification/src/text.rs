//! Source-text arithmetic: line tables over UTF-8 byte offsets, line lookup,
//! `offset:length` ranges, indentation, natspec extraction and expression
//! normalization.
use vstd::prelude::*;
use crate::strings::{
    byte_len, chars_of, decimal, decimal_exec, is_ws, is_ws_exec, lemma_byte_len_push,
    parse_usize, parse_usize_spec, push_char, push_str, split_once_spec, utf8_width,
    utf8_width_exec,
};

verus! {

// ---------------------------------------------------------------------------
// Line tables
// ---------------------------------------------------------------------------

/// Byte offsets just after each `\n` of `s`, in order.
pub open spec fn newline_ends(s: Seq<char>) -> Seq<usize>
    decreases s.len(),
{
    if s.len() == 0 {
        Seq::empty()
    } else if s.last() == '\n' {
        newline_ends(s.drop_last()).push(byte_len(s) as usize)
    } else {
        newline_ends(s.drop_last())
    }
}

/// The line table of `s`: entry `n` is the byte offset where line `n` starts
/// (1-indexed; entry 0 is a placeholder 0).
pub open spec fn line_offsets_spec(s: Seq<char>) -> Seq<usize> {
    seq![0usize, 0usize] + newline_ends(s)
}

/// Build the line table of `content` (see [`line_offsets_spec`]).
pub fn build_line_offsets(content: &str) -> (r: Vec<usize>)
    requires
        byte_len(content@) <= usize::MAX,
    ensures
        r@ == line_offsets_spec(content@),
{
    let v = chars_of(content);
    let mut offsets: Vec<usize> = Vec::new();
    offsets.push(0);
    offsets.push(0);
    let mut bytes: usize = 0;
    let mut i: usize = 0;
    proof {
        lemma_byte_len_prefix_bound(v@, 0);
    }
    while i < v.len()
        invariant
            i <= v.len(),
            v@ == content@,
            byte_len(v@) <= usize::MAX,
            bytes as nat == byte_len(v@.take(i as int)),
            offsets@ == seq![0usize, 0usize] + newline_ends(v@.take(i as int)),
        decreases v.len() - i,
    {
        let c = v[i];
        proof {
            assert(v@.take(i + 1) == v@.take(i as int).push(c));
            lemma_byte_len_push(v@.take(i as int), c);
            lemma_byte_len_prefix_bound(v@, i + 1);
        }
        bytes = bytes + utf8_width_exec(c);
        if c == '\n' {
            offsets.push(bytes);
        }
        proof {
            assert(v@.take(i + 1).drop_last() == v@.take(i as int));
        }
        i = i + 1;
    }
    assert(v@.take(v.len() as int) == v@);
    offsets
}

/// A prefix never takes more bytes than the whole.
pub proof fn lemma_byte_len_prefix_bound(s: Seq<char>, k: int)
    requires
        0 <= k <= s.len(),
    ensures
        byte_len(s.take(k)) <= byte_len(s),
    decreases s.len() - k,
{
    if k < s.len() {
        lemma_byte_len_prefix_bound(s, k + 1);
        assert(s.take(k + 1).drop_last() == s.take(k));
    } else {
        assert(s.take(k) == s);
    }
}

/// Entries of `offs` that are at most `offset`.
pub open spec fn count_le(offs: Seq<usize>, offset: usize) -> nat
    decreases offs.len(),
{
    if offs.len() == 0 {
        0
    } else {
        count_le(offs.drop_last(), offset) + if offs.last() <= offset {
            1nat
        } else {
            0nat
        }
    }
}

/// `offs` is sorted in non-decreasing order.
pub open spec fn sorted(offs: Seq<usize>) -> bool {
    forall|i: int, j: int| 0 <= i <= j < offs.len() ==> offs[i] <= offs[j]
}

/// The 1-indexed line that holds byte `offset` according to a line table:
/// the number of line starts at or before it, less the placeholder.
pub open spec fn line_of_spec(offset: usize, offs: Seq<usize>) -> nat {
    if count_le(offs, offset) >= 2 {
        (count_le(offs, offset) - 1) as nat
    } else {
        1
    }
}

/// Given a byte offset and a sorted line table, the 1-indexed line number.
pub fn byte_offset_to_line(offset: usize, line_offsets: &Vec<usize>) -> (r: usize)
    requires
        sorted(line_offsets@),
    ensures
        r == line_of_spec(offset, line_offsets@),
        r >= 1,
{
    let mut count: usize = 0;
    let mut i: usize = 0;
    while i < line_offsets.len()
        invariant
            i <= line_offsets.len(),
            count as nat == count_le(line_offsets@.take(i as int), offset),
            count <= i,
        decreases line_offsets.len() - i,
    {
        assert(line_offsets@.take(i + 1).drop_last() == line_offsets@.take(i as int));
        if line_offsets[i] <= offset {
            count = count + 1;
        }
        i = i + 1;
    }
    assert(line_offsets@.take(i as int) == line_offsets@);
    if count >= 2 {
        count - 1
    } else {
        1
    }
}

/// `(offset, length)` of an `offset:length` source location.
pub open spec fn src_parts(src: Seq<char>) -> Option<(nat, nat)> {
    match split_once_spec(src, seq![':']) {
        Some((o, l)) => match (parse_usize_spec(o), parse_usize_spec(l)) {
            (Some(a), Some(b)) => Some((a, b)),
            _ => None,
        },
        None => None,
    }
}

/// The last byte of a range `offset..offset+length` (`saturating` arithmetic).
pub open spec fn range_end(offset: nat, length: nat) -> usize {
    let sum = if offset + length > usize::MAX {
        usize::MAX as nat
    } else {
        offset + length
    };
    if sum == 0 {
        0
    } else {
        (sum - 1) as usize
    }
}

/// Human-readable line range of an `offset:length` location: `L<a>` or
/// `L<a>-L<b>`; the location itself when it does not parse or the line
/// table is empty.
pub open spec fn line_range_spec(src: Seq<char>, offs: Seq<usize>) -> Seq<char> {
    match src_parts(src) {
        None => src,
        Some((o, l)) => if offs.len() == 0 {
            src
        } else {
            let a = line_of_spec(o as usize, offs);
            let b = line_of_spec(range_end(o, l), offs);
            if a == b {
                "L"@ + decimal(a)
            } else {
                "L"@ + decimal(a) + "-L"@ + decimal(b)
            }
        },
    }
}

/// Split an `offset:length` location into two numbers.
pub fn parse_src(src: &str) -> (r: Option<(usize, usize)>)
    ensures
        match src_parts(src@) {
            Some((o, l)) => r == Some((o as usize, l as usize)),
            None => r is None,
        },
{
    let v = chars_of(src);
    let mut colon: Vec<char> = Vec::new();
    colon.push(':');
    assert(colon@ == seq![':']);
    match crate::strings::find_exec(&v, &colon) {
        None => None,
        Some(i) => {
            assert(crate::strings::occurs_at(v@, i as int, colon@));
            assert(i + 1 <= v.len());
            let a = parse_usize(&v, 0, i);
            let b = parse_usize(&v, i + 1, v.len());
            match (a, b) {
                (Some(x), Some(y)) => Some((x, y)),
                _ => None,
            }
        },
    }
}

/// Turn an `offset:length` location into a line range using a line table.
pub fn line_range(src: &str, line_offsets: &Vec<usize>) -> (r: String)
    requires
        sorted(line_offsets@),
    ensures
        r@ == line_range_spec(src@, line_offsets@),
{
    match parse_src(src) {
        None => String::from_str(src),
        Some((offset, length)) => {
            if line_offsets.len() == 0 {
                return String::from_str(src);
            }
            let start_line = byte_offset_to_line(offset, line_offsets);
            let end = offset.saturating_add(length).saturating_sub(1);
            let end_line = byte_offset_to_line(end, line_offsets);
            let mut out = String::new();
            push_str(&mut out, "L");
            let a = decimal_exec(start_line);
            push_str(&mut out, a.as_str());
            if start_line != end_line {
                push_str(&mut out, "-L");
                let b = decimal_exec(end_line);
                push_str(&mut out, b.as_str());
            }
            out
        },
    }
}

/// Line tables built by [`build_line_offsets`] are sorted.
pub proof fn lemma_line_offsets_sorted(s: Seq<char>)
    requires
        byte_len(s) <= usize::MAX,
    ensures
        sorted(line_offsets_spec(s)),
{
    lemma_newline_ends_sorted(s);
    let t = line_offsets_spec(s);
    let ne = newline_ends(s);
    assert forall|i: int, j: int| 0 <= i <= j < t.len() implies t[i] <= t[j] by {
        if i >= 2 {
            assert(t[i] == ne[i - 2]);
            assert(t[j] == ne[j - 2]);
        } else if j >= 2 {
            assert(t[i] == 0);
        }
    }
}

/// Newlines of `s` that start before byte `o`.
pub open spec fn newlines_before(s: Seq<char>, o: nat) -> nat
    decreases s.len(),
{
    if s.len() == 0 {
        0
    } else {
        newlines_before(s.drop_last(), o) + if s.last() == '\n' && byte_len(s.drop_last()) < o {
            1nat
        } else {
            0nat
        }
    }
}

proof fn lemma_count_le_append(a: Seq<usize>, b: Seq<usize>, o: usize)
    ensures
        count_le(a + b, o) == count_le(a, o) + count_le(b, o),
    decreases b.len(),
{
    if b.len() > 0 {
        lemma_count_le_append(a, b.drop_last(), o);
        assert((a + b).drop_last() =~= a + b.drop_last());
    } else {
        assert(a + b =~= a);
    }
}

proof fn lemma_newline_ends_count(s: Seq<char>, o: usize)
    requires
        byte_len(s) <= usize::MAX,
    ensures
        count_le(newline_ends(s), o) == newlines_before(s, o as nat),
    decreases s.len(),
{
    if s.len() > 0 {
        assert(byte_len(s) >= byte_len(s.drop_last()));
        lemma_newline_ends_count(s.drop_last(), o);
        if s.last() == '\n' {
            assert(utf8_width('\n') == 1);
            assert(newline_ends(s).drop_last() == newline_ends(s.drop_last()));
        }
    }
}

/// The line that the line table of `s` gives for byte `o` is one more than
/// the number of newline bytes before `o` (all of them for `o` past the end).
pub proof fn lemma_line_is_newlines_before(s: Seq<char>, o: usize)
    requires
        byte_len(s) <= usize::MAX,
    ensures
        line_of_spec(o, line_offsets_spec(s)) == 1 + newlines_before(s, o as nat),
{
    lemma_count_le_append(seq![0usize, 0usize], newline_ends(s), o);
    lemma_newline_ends_count(s, o);
    let z2 = seq![0usize, 0usize];
    let z1 = seq![0usize];
    assert(z2.drop_last() =~= z1);
    assert(z1.drop_last() =~= Seq::<usize>::empty());
    assert(count_le(Seq::<usize>::empty(), o) == 0);
    assert(count_le(z1, o) == 1);
    assert(count_le(z2, o) == 2);
}

/// At a char boundary `k` the newlines before byte `o` are those of the
/// first `k` chars; past the end they are all the newlines, so the line
/// table agrees with [`line_at_spec`] wherever that is defined.
pub proof fn lemma_newlines_before_boundary(s: Seq<char>, o: nat, k: int)
    requires
        is_boundary(s, o, k) || (k == s.len() && o >= byte_len(s)),
    ensures
        newlines_before(s, o) == count_newlines(s.take(k)),
    decreases s.len(),
{
    if s.len() > 0 {
        crate::strings::lemma_byte_len_mono(s, s.len() - 1, s.len() as int);
        assert(s.take(s.len() as int) =~= s);
        if k == s.len() {
            assert(byte_len(s.drop_last()) < byte_len(s));
            assert(s.drop_last().take(k - 1) =~= s.drop_last());
            lemma_newlines_before_boundary(s.drop_last(), o, k - 1);
            assert(s.take(k).drop_last() =~= s.drop_last());
        } else {
            assert(s.drop_last().take(k) =~= s.take(k));
            assert(s.take(k) =~= s.drop_last().take(k));
            crate::strings::lemma_byte_len_mono(s, k, s.len() - 1);
            assert(s.take(s.len() - 1) =~= s.drop_last());
            lemma_newlines_before_boundary(s.drop_last(), o, k);
        }
    } else {
        assert(s.take(k) =~= s);
    }
}

/// The line table and [`line_at`] agree on every offset at a char boundary
/// or past the end of the text.
pub proof fn lemma_line_table_agrees_with_line_at(s: Seq<char>, o: usize)
    requires
        byte_len(s) <= usize::MAX,
        o >= byte_len(s) || exists|k: int| is_boundary(s, o as nat, k),
    ensures
        line_of_spec(o, line_offsets_spec(s)) == line_at_spec(s, o as nat),
{
    lemma_line_is_newlines_before(s, o);
    if o >= byte_len(s) {
        lemma_newlines_before_boundary(s, o as nat, s.len() as int);
        assert(s.take(s.len() as int) =~= s);
    } else {
        let k = choose|k: int| is_boundary(s, o as nat, k);
        lemma_newlines_before_boundary(s, o as nat, k);
    }
}

proof fn lemma_newline_ends_sorted(s: Seq<char>)
    requires
        byte_len(s) <= usize::MAX,
    ensures
        sorted(newline_ends(s)),
        forall|i: int| 0 <= i < newline_ends(s).len() ==> newline_ends(s)[i] <= byte_len(s),
    decreases s.len(),
{
    if s.len() > 0 {
        assert(byte_len(s) >= byte_len(s.drop_last()));
        lemma_newline_ends_sorted(s.drop_last());
    }
}

// ---------------------------------------------------------------------------
// Line lookup by counting newlines
// ---------------------------------------------------------------------------

/// Index of the char that starts at byte `offset`, when a char boundary
/// lies there (the end of `s` counts as one).
pub open spec fn is_boundary(s: Seq<char>, offset: nat, k: int) -> bool {
    0 <= k <= s.len() && byte_len(s.take(k)) == offset
}

/// Count of `\n` among `s[..k]`.
pub open spec fn count_newlines(s: Seq<char>) -> nat
    decreases s.len(),
{
    if s.len() == 0 {
        0
    } else {
        count_newlines(s.drop_last()) + if s.last() == '\n' {
            1nat
        } else {
            0nat
        }
    }
}

/// Char index where the byte `offset` falls, walking from the start; the
/// walk stops at the first char whose start reaches `offset` (or the end).
pub fn char_index_of_byte(v: &Vec<char>, offset: usize) -> (r: (usize, bool))
    ensures
        r.0 <= v@.len(),
        r.1 == is_boundary(v@, offset as nat, r.0 as int),
        r.1 ==> forall|k: int| 0 <= k <= v@.len() && byte_len(v@.take(k)) == offset ==> k == r.0,
        !r.1 ==> forall|k: int| 0 <= k <= v@.len() ==> byte_len(v@.take(k)) != offset,
        r.0 < v@.len() ==> byte_len(v@.take(r.0 as int)) >= offset,
{
    let mut bytes: u128 = 0;
    let mut i: usize = 0;
    while i < v.len() && bytes < offset as u128
        invariant
            i <= v.len(),
            bytes as nat == byte_len(v@.take(i as int)),
            forall|k: int| 0 <= k < i ==> byte_len(v@.take(k)) < offset,
            bytes <= offset as u128 + 4,
        decreases v.len() - i,
    {
        proof {
            assert(v@.take(i + 1) == v@.take(i as int).push(v@[i as int]));
            lemma_byte_len_push(v@.take(i as int), v@[i as int]);
        }
        bytes = bytes + utf8_width_exec(v[i]) as u128;
        i = i + 1;
    }
    proof {
        assert forall|k: int| i < k <= v@.len() implies byte_len(v@.take(k)) > byte_len(v@.take(i as int)) by {
            crate::strings::lemma_byte_len_mono(v@, i as int, k);
        }
    }
    (i, bytes == offset as u128)
}

/// Line of byte `offset` in `content`: one more than the newlines before it;
/// offsets past the end count all newlines.
pub open spec fn line_at_spec(s: Seq<char>, offset: nat) -> nat {
    if offset >= byte_len(s) {
        count_newlines(s) + 1
    } else {
        count_newlines(s.take(choose|k: int| is_boundary(s, offset, k))) + 1
    }
}

/// The 1-indexed line of a byte offset in `content` (offsets past the end
/// land on the last line). The offset must fall on a char boundary, as the
/// slicing it stands for requires.
pub fn line_at(content: &str, offset: usize) -> (r: usize)
    requires
        offset >= byte_len(content@) || exists|k: int| is_boundary(content@, offset as nat, k),
        content@.len() < usize::MAX,
    ensures
        r == line_at_spec(content@, offset as nat),
{
    let v = chars_of(content);
    let (k, exact) = char_index_of_byte(&v, offset);
    proof {
        if offset < byte_len(content@) {
            let kk = choose|k: int| is_boundary(content@, offset as nat, k);
            assert(is_boundary(content@, offset as nat, kk));
            assert(k == kk);
        } else {
            assert(v@.take(v@.len() as int) == v@);
            if k < v@.len() {
                crate::strings::lemma_byte_len_mono(v@, k as int, v@.len() as int);
            }
            assert(k == v@.len());
        }
    }
    let mut count: usize = 0;
    let mut i: usize = 0;
    while i < k
        invariant
            i <= k <= v.len(),
            count as nat == count_newlines(v@.take(i as int)),
            count <= i,
        decreases k - i,
    {
        assert(v@.take(i + 1).drop_last() == v@.take(i as int));
        if v[i] == '\n' {
            count = count + 1;
        }
        i = i + 1;
    }
    count + 1
}

// ---------------------------------------------------------------------------
// Expressions and signatures
// ---------------------------------------------------------------------------

/// Collapse every whitespace run into one space and drop trailing spaces.
pub open spec fn collapse_ws(s: Seq<char>) -> Seq<char>
    decreases s.len(),
{
    if s.len() == 0 {
        Seq::empty()
    } else {
        let prev = collapse_ws(s.drop_last());
        if is_ws(s.last()) {
            if s.len() >= 2 && is_ws(s[s.len() - 2]) {
                prev
            } else {
                prev.push(' ')
            }
        } else {
            prev.push(s.last())
        }
    }
}

/// Collapse all whitespace into a single space and trim both ends.
pub open spec fn normalize_expression_spec(s: Seq<char>) -> Seq<char> {
    crate::strings::trim_spec(collapse_ws(s))
}

/// Collapse all whitespace runs into a single space, trimming the result.
pub fn normalize_expression(text: &str) -> (r: String)
    ensures
        r@ == normalize_expression_spec(text@),
{
    let v = chars_of(text);
    let mut out: Vec<char> = Vec::new();
    let mut prev_was_space = false;
    let mut i: usize = 0;
    while i < v.len()
        invariant
            i <= v.len(),
            out@ == collapse_ws(v@.take(i as int)),
            prev_was_space == (i > 0 && is_ws(v@[i - 1])),
        decreases v.len() - i,
    {
        let ch = v[i];
        proof {
            assert(v@.take(i + 1).drop_last() == v@.take(i as int));
            assert(v@.take(i + 1).last() == ch);
            if i >= 1 {
                assert(v@.take(i + 1)[i - 1] == v@[i - 1]);
            }
        }
        if is_ws_exec(ch) {
            if !prev_was_space {
                out.push(' ');
                prev_was_space = true;
            }
        } else {
            out.push(ch);
            prev_was_space = false;
        }
        i = i + 1;
    }
    assert(v@.take(v.len() as int) == v@);
    let lead = crate::strings::leading_ws_exec(&out, 0, out.len());
    assert(out@.subrange(0, out@.len() as int) == out@);
    proof {
        crate::strings::lemma_leading_ws_bound(out@);
    }
    let t = crate::strings::trailing_ws_exec(&out, lead, out.len());
    let ghost rest = out@.subrange(lead as int, out@.len() as int);
    proof {
        crate::strings::lemma_trailing_ws_bound(rest);
    }
    let r = crate::strings::string_of_range(&out, lead, out.len() - t);
    assert(r@ =~= rest.subrange(0, rest.len() - t));
    r
}

/// Text of `s` up to its first `{` (all of it when there is none), with the
/// end trimmed.
pub open spec fn header_spec(s: Seq<char>) -> Seq<char> {
    crate::strings::trim_end_spec(crate::strings::before_first(s, seq!['{']))
}

/// Extract just the function signature from a full function definition
/// source: the text up to the first `{`, trailing whitespace trimmed.
pub fn extract_function_signature(source: &str) -> (r: String)
    ensures
        r@ == header_spec(source@),
{
    let v = chars_of(source);
    assert(v@.subrange(0, v@.len() as int) == v@);
    header_of_range(&v, 0)
}

fn header_of_range(v: &Vec<char>, lo: usize) -> (r: String)
    requires
        lo <= v.len(),
    ensures
        r@ == header_spec(v@.subrange(lo as int, v@.len() as int)),
{
    let ghost s = v@.subrange(lo as int, v@.len() as int);
    let mut k = lo;
    while k < v.len() && v[k] != '{'
        invariant
            lo <= k <= v.len(),
            forall|m: int| lo <= m < k ==> v@[m] != '{',
        decreases v.len() - k,
    {
        k = k + 1;
    }
    proof {
        assert forall|j: int| 0 <= j < k - lo implies !crate::strings::occurs_at(s, j, seq!['{']) by {
            if crate::strings::occurs_at(s, j, seq!['{']) {
                assert(s.subrange(j, j + 1)[0] == s[j]);
            }
        }
        if k < v.len() {
            assert(s.subrange(k - lo, k - lo + 1) =~= seq!['{']);
            crate::strings::lemma_find_spec(s, seq!['{'], k - lo);
            assert(s.subrange(0, k - lo) =~= v@.subrange(lo as int, k as int));
        } else {
            crate::strings::lemma_find_none(s, seq!['{']);
        }
    }
    let t = crate::strings::trailing_ws_exec(v, lo, k);
    proof {
        crate::strings::lemma_trailing_ws_bound(v@.subrange(lo as int, k as int));
    }
    let r = crate::strings::string_of_range(v, lo, k - t);
    assert(r@ =~= header_spec(s));
    r
}

/// Char index of a byte offset that lies on a char boundary of `s`.
pub open spec fn char_pos(s: Seq<char>, offset: nat) -> int {
    choose|k: int| is_boundary(s, offset, k)
}

/// The header of a contract or interface definition that starts at byte
/// `offset`: the text up to the opening brace, end trimmed.
pub fn contract_header(content: &str, offset: usize) -> (r: String)
    requires
        exists|k: int| is_boundary(content@, offset as nat, k),
    ensures
        r@ == header_spec(content@.subrange(char_pos(content@, offset as nat), content@.len() as int)),
{
    let v = chars_of(content);
    let (k, exact) = char_index_of_byte(&v, offset);
    proof {
        let kk = choose|k: int| is_boundary(content@, offset as nat, k);
        assert(is_boundary(content@, offset as nat, kk));
    }
    header_of_range(&v, k)
}

// ---------------------------------------------------------------------------
// Lines, indentation and natspec
// ---------------------------------------------------------------------------

/// A line without the `\r` of a `\r\n` ending.
pub open spec fn strip_cr(l: Seq<char>) -> Seq<char> {
    if l.len() > 0 && l.last() == '\r' {
        l.drop_last()
    } else {
        l
    }
}

/// `str::lines`: the pieces between `\n`s, a `\r` before each `\n` removed,
/// no empty piece after a final `\n`.
pub open spec fn lines_spec(s: Seq<char>) -> Seq<Seq<char>>
    decreases s.len(),
{
    if s.len() == 0 {
        Seq::empty()
    } else {
        match crate::strings::find_spec(s, seq!['\n']) {
            Some(i) => if 0 <= i < s.len() {
                seq![strip_cr(s.subrange(0, i))] + lines_spec(s.subrange(i + 1, s.len() as int))
            } else {
                seq![s]
            },
            None => seq![s],
        }
    }
}

/// View of char ranges as the text they cover.
pub open spec fn ranges_text(v: Seq<char>, rs: Seq<(usize, usize)>) -> Seq<Seq<char>> {
    rs.map_values(|r: (usize, usize)| v.subrange(r.0 as int, r.1 as int))
}

/// All ranges lie inside `v`.
pub open spec fn ranges_ok(v: Seq<char>, rs: Seq<(usize, usize)>) -> bool {
    forall|i: int| 0 <= i < rs.len() ==> #[trigger] rs[i].0 <= rs[i].1 && rs[i].1 <= v.len()
}

/// The lines of `v[lo..hi]` as char ranges of `v`.
pub fn lines_of(v: &Vec<char>, lo: usize, hi: usize) -> (r: Vec<(usize, usize)>)
    requires
        lo <= hi <= v.len(),
    ensures
        ranges_ok(v@, r@),
        ranges_text(v@, r@) == lines_spec(v@.subrange(lo as int, hi as int)),
{
    let mut out: Vec<(usize, usize)> = Vec::new();
    let mut start = lo;
    while start < hi
        invariant
            lo <= start <= hi <= v.len(),
            ranges_ok(v@, out@),
            lines_spec(v@.subrange(lo as int, hi as int)) == ranges_text(v@, out@) + lines_spec(
                v@.subrange(start as int, hi as int),
            ),
        decreases hi - start,
    {
        let ghost rest = v@.subrange(start as int, hi as int);
        let mut k = start;
        while k < hi && v[k] != '\n'
            invariant
                start <= k <= hi <= v.len(),
                forall|m: int| start <= m < k ==> v@[m] != '\n',
            decreases hi - k,
        {
            k = k + 1;
        }
        proof {
            assert forall|j: int| 0 <= j < k - start implies !crate::strings::occurs_at(
                rest,
                j,
                seq!['\n'],
            ) by {
                if crate::strings::occurs_at(rest, j, seq!['\n']) {
                    assert(rest.subrange(j, j + 1)[0] == rest[j]);
                }
            }
        }
        let ghost out0 = out@;
        if k < hi {
            let end = if k > start && v[k - 1] == '\r' { k - 1 } else { k };
            out.push((start, end));
            proof {
                assert(rest.subrange(k - start, k - start + 1) =~= seq!['\n']);
                crate::strings::lemma_find_spec(rest, seq!['\n'], k - start);
                let line = rest.subrange(0, k - start);
                assert(line =~= v@.subrange(start as int, k as int));
                assert(v@.subrange(start as int, end as int) =~= strip_cr(line));
                assert(rest.subrange(k - start + 1, rest.len() as int) =~= v@.subrange(
                    k + 1,
                    hi as int,
                ));
                assert(lines_spec(rest) == seq![strip_cr(line)] + lines_spec(
                    v@.subrange(k + 1, hi as int),
                ));
                assert(ranges_text(v@, out@) =~= ranges_text(v@, out0).push(strip_cr(line)));
            }
            start = k + 1;
        } else {
            out.push((start, hi));
            proof {
                crate::strings::lemma_find_none(rest, seq!['\n']);
                assert(lines_spec(rest) == seq![rest]);
                assert(ranges_text(v@, out@) =~= ranges_text(v@, out0).push(rest));
                assert(lines_spec(v@.subrange(hi as int, hi as int)) == Seq::<Seq<char>>::empty());
            }
            start = hi;
        }
    }
    assert(lines_spec(v@.subrange(hi as int, hi as int)) == Seq::<Seq<char>>::empty());
    out
}

/// One dedented line: up to `base` leading whitespace chars removed, and a
/// `\n` appended.
pub open spec fn dedent_line(l: Seq<char>, base: nat) -> Seq<char> {
    let cut = if crate::strings::leading_ws(l) < base {
        crate::strings::leading_ws(l)
    } else {
        base
    };
    l.subrange(cut as int, l.len() as int) + seq!['\n']
}

/// Strip up to `base` leading whitespace chars from every line; text
/// stays unchanged when `base` is 0.
pub open spec fn dedent_spec(s: Seq<char>, base: nat) -> Seq<char> {
    if base == 0 {
        s
    } else {
        crate::strings::concat_all(lines_spec(s).map_values(|l: Seq<char>| dedent_line(l, base)))
    }
}

/// Strip up to `base` leading whitespace chars from every line.
pub fn dedent(text: &str, base: usize) -> (r: String)
    ensures
        r@ == dedent_spec(text@, base as nat),
{
    if base == 0 {
        return String::from_str(text);
    }
    let v = chars_of(text);
    let lines = lines_of(&v, 0, v.len());
    assert(v@.subrange(0, v@.len() as int) == v@);
    let ghost ls = lines_spec(v@);
    let mut out = String::new();
    let mut i: usize = 0;
    while i < lines.len()
        invariant
            i <= lines.len(),
            ranges_ok(v@, lines@),
            ranges_text(v@, lines@) == ls,
            ls == lines_spec(text@),
            out@ == crate::strings::concat_all(
                ls.take(i as int).map_values(|l: Seq<char>| dedent_line(l, base as nat)),
            ),
        decreases lines.len() - i,
    {
        let (a, b) = lines[i];
        assert(ranges_ok(v@, lines@) ==> lines@[i as int].0 <= lines@[i as int].1 <= v@.len());
        let lead = crate::strings::leading_ws_exec(&v, a, b);
        let cut = if lead < base { lead } else { base };
        proof {
            crate::strings::lemma_leading_ws_bound(v@.subrange(a as int, b as int));
        }
        let ghost o0 = out@;
        crate::strings::push_range(&mut out, &v, a + cut, b);
        push_char(&mut out, '\n');
        proof {
            let l = ls[i as int];
            assert(l == v@.subrange(a as int, b as int));
            assert(v@.subrange(a + cut, b as int) =~= l.subrange(cut as int, l.len() as int));
            assert(out@ =~= o0 + dedent_line(l, base as nat));
            assert(ls.take(i + 1).map_values(|l: Seq<char>| dedent_line(l, base as nat))
                =~= ls.take(i as int).map_values(|l: Seq<char>| dedent_line(l, base as nat)).push(
                dedent_line(l, base as nat),
            ));
            crate::strings::lemma_concat_all_push(
                ls.take(i as int).map_values(|l: Seq<char>| dedent_line(l, base as nat)),
                dedent_line(l, base as nat),
            );
        }
        i = i + 1;
    }
    assert(ls.take(lines.len() as int) =~= ls);
    out
}

/// Leading whitespace of the line holding char index `k`, up to `k`.
pub open spec fn base_indent_spec(s: Seq<char>, k: int) -> nat {
    let pre = s.take(k);
    let ls = match crate::strings::rfind_spec(pre, seq!['\n']) {
        Some(i) => i + 1,
        None => 0,
    };
    crate::strings::leading_ws(pre.subrange(ls, k))
}

/// Count the leading whitespace on the line that holds byte `offset`,
/// between the line start and `offset`.
pub fn base_indent(content: &str, offset: usize) -> (r: usize)
    requires
        exists|k: int| is_boundary(content@, offset as nat, k),
    ensures
        r == base_indent_spec(content@, char_pos(content@, offset as nat)),
{
    let v = chars_of(content);
    let (k, exact) = char_index_of_byte(&v, offset);
    proof {
        let kk = choose|k: int| is_boundary(content@, offset as nat, k);
        assert(is_boundary(content@, offset as nat, kk));
    }
    let ghost pre = v@.take(k as int);
    let mut j = k;
    while j > 0 && v[j - 1] != '\n'
        invariant
            j <= k <= v.len(),
            pre == v@.take(k as int),
            forall|m: int| j <= m < k ==> v@[m] != '\n',
        decreases j,
    {
        j = j - 1;
    }
    proof {
        assert forall|m: int| j <= m <= pre.len() implies !crate::strings::occurs_at(pre, m, seq!['\n']) by {
            if crate::strings::occurs_at(pre, m, seq!['\n']) {
                assert(pre.subrange(m, m + 1)[0] == pre[m]);
            }
        }
        if j > 0 {
            assert(pre.subrange(j - 1, j as int) =~= seq!['\n']);
            assert(crate::strings::is_last_occ(pre, seq!['\n'], j - 1));
            crate::strings::lemma_rfind_spec(pre, seq!['\n'], j - 1);
        } else {
            crate::strings::lemma_find_none(pre, seq!['\n']);
        }
        assert(pre.subrange(j as int, k as int) =~= v@.subrange(j as int, k as int));
    }
    crate::strings::leading_ws_exec(&v, j, k)
}

/// Whether `v[a..b]` starts with `pat`.
fn range_starts_with(v: &Vec<char>, a: usize, b: usize, pat: &str) -> (r: bool)
    requires
        a <= b <= v.len(),
    ensures
        r == crate::strings::starts_with(v@.subrange(a as int, b as int), pat@),
{
    let p = chars_of(pat);
    if p.len() > b - a {
        return false;
    }
    let r = crate::strings::occurs_at_exec(v, a, &p);
    assert(v@.subrange(a as int, b as int).subrange(0, p@.len() as int) =~= v@.subrange(
        a as int,
        a + p@.len(),
    ));
    r
}

/// Bounds of the trimmed `v[a..b]`.
fn trim_range(v: &Vec<char>, a: usize, b: usize) -> (r: (usize, usize))
    requires
        a <= b <= v.len(),
    ensures
        a <= r.0 <= r.1 <= b,
        v@.subrange(r.0 as int, r.1 as int) == crate::strings::trim_spec(v@.subrange(a as int, b as int)),
{
    let lead = crate::strings::leading_ws_exec(v, a, b);
    proof {
        crate::strings::lemma_leading_ws_bound(v@.subrange(a as int, b as int));
    }
    let trail = crate::strings::trailing_ws_exec(v, a + lead, b);
    proof {
        crate::strings::lemma_trailing_ws_bound(v@.subrange(a + lead, b as int));
        assert(v@.subrange(a + lead, b as int) =~= crate::strings::trim_start_spec(
            v@.subrange(a as int, b as int),
        ));
        assert(v@.subrange(a + lead, b - trail) =~= crate::strings::trim_spec(
            v@.subrange(a as int, b as int),
        ));
    }
    (a + lead, b - trail)
}

/// A line is blank when it is empty after trimming.
pub open spec fn is_blank(l: Seq<char>) -> bool {
    crate::strings::trim_spec(l).len() == 0
}

/// Start of the natspec block that ends at line `n` (exclusive), scanning
/// upwards over `///` lines, `*` lines and blank lines, and stopping after a
/// `/*` line or before any other line.
pub open spec fn natspec_start(ls: Seq<Seq<char>>, n: int) -> int
    decreases n,
{
    if n <= 0 || n > ls.len() {
        0
    } else {
        let t = crate::strings::trim_spec(ls[n - 1]);
        if crate::strings::starts_with(t, "///"@) {
            natspec_start(ls, n - 1)
        } else if crate::strings::starts_with(t, "/*"@) {
            n - 1
        } else if crate::strings::starts_with(t, "*"@) {
            natspec_start(ls, n - 1)
        } else if t.len() == 0 {
            natspec_start(ls, n - 1)
        } else {
            n
        }
    }
}

/// Index of the first non-blank line at or after `i` (or `e`).
pub open spec fn skip_blank_front(ls: Seq<Seq<char>>, i: int, e: int) -> int
    decreases e - i,
{
    if i < e && is_blank(ls[i]) {
        skip_blank_front(ls, i + 1, e)
    } else {
        i
    }
}

/// End of the lines `ls[s..e]` without the blank lines at their end.
pub open spec fn skip_blank_back(ls: Seq<Seq<char>>, s: int, e: int) -> int
    decreases e - s,
{
    if s < e && is_blank(ls[e - 1]) {
        skip_blank_back(ls, s, e - 1)
    } else {
        e
    }
}

/// The natspec comment that precedes char index `k` of `s`: the comment
/// lines just above it without surrounding blank lines, each ended by `\n`.
pub open spec fn natspec_spec(s: Seq<char>, k: int) -> Seq<char> {
    let ls = lines_spec(s.take(k));
    let st = natspec_start(ls, ls.len() as int);
    let e = skip_blank_back(ls, st, ls.len() as int);
    let b = skip_blank_front(ls, st, e);
    crate::strings::concat_all(
        ls.subrange(b, e).map_values(|l: Seq<char>| l + seq!['\n']),
    )
}

/// Extract the natspec comment preceding byte `offset` of `content`
/// (offsets past the end read the whole text).
pub fn extract_natspec(content: &str, offset: usize) -> (r: String)
    requires
        offset > byte_len(content@) || exists|k: int| is_boundary(content@, offset as nat, k),
    ensures
        r@ == natspec_spec(
            content@,
            if offset > byte_len(content@) {
                content@.len() as int
            } else {
                char_pos(content@, offset as nat)
            },
        ),
{
    let v = chars_of(content);
    let (k0, exact) = char_index_of_byte(&v, offset);
    let ghost kk: int = if offset > byte_len(content@) {
        content@.len() as int
    } else {
        char_pos(content@, offset as nat)
    };
    proof {
        if offset > byte_len(content@) {
            assert(v@.take(v@.len() as int) == v@);
            if k0 < v@.len() {
                crate::strings::lemma_byte_len_mono(v@, k0 as int, v@.len() as int);
            }
        } else {
            let c = choose|k: int| is_boundary(content@, offset as nat, k);
            assert(is_boundary(content@, offset as nat, c));
        }
    }
    let k = k0;
    assert(k == kk);
    let ls = lines_of(&v, 0, k);
    let ghost lsv = lines_spec(v@.take(k as int));
    assert(v@.subrange(0, k as int) == v@.take(k as int));
    let n = ls.len();
    // scan upwards
    let mut st = n;
    loop
        invariant_except_break
            natspec_start(lsv, n as int) == natspec_start(lsv, st as int),
        invariant
            st <= n == ls@.len(),
            ranges_ok(v@, ls@),
            ranges_text(v@, ls@) == lsv,
        ensures
            natspec_start(lsv, n as int) == st,
        decreases st,
    {
        if st == 0 {
            break;
        }
        let (a, b) = ls[st - 1];
        assert(ranges_ok(v@, ls@) ==> ls@[st - 1].0 <= ls@[st - 1].1 <= v@.len());
        let (ta, tb) = trim_range(&v, a, b);
        assert(lsv[st - 1] == v@.subrange(a as int, b as int));
        if range_starts_with(&v, ta, tb, "///") {
            st = st - 1;
        } else if range_starts_with(&v, ta, tb, "/*") {
            st = st - 1;
            break;
        } else if range_starts_with(&v, ta, tb, "*") {
            st = st - 1;
        } else if ta == tb {
            st = st - 1;
        } else {
            break;
        }
    }
    // drop blank lines at the end
    let mut e = n;
    while e > st && is_blank_range(&v, ls[e - 1].0, ls[e - 1].1)
        invariant
            st <= e <= n == ls@.len(),
            ranges_ok(v@, ls@),
            ranges_text(v@, ls@) == lsv,
            skip_blank_back(lsv, st as int, n as int) == skip_blank_back(lsv, st as int, e as int),
        decreases e,
    {
        e = e - 1;
    }
    // drop blank lines at the front
    let mut bgn = st;
    while bgn < e && is_blank_range(&v, ls[bgn].0, ls[bgn].1)
        invariant
            st <= bgn <= e <= n == ls@.len(),
            ranges_ok(v@, ls@),
            ranges_text(v@, ls@) == lsv,
            skip_blank_front(lsv, st as int, e as int) == skip_blank_front(lsv, bgn as int, e as int),
        decreases e - bgn,
    {
        bgn = bgn + 1;
    }
    let mut out = String::new();
    let mut i = bgn;
    while i < e
        invariant
            bgn <= i <= e <= n == ls@.len(),
            ranges_ok(v@, ls@),
            ranges_text(v@, ls@) == lsv,
            out@ == crate::strings::concat_all(
                lsv.subrange(bgn as int, i as int).map_values(|l: Seq<char>| l + seq!['\n']),
            ),
        decreases e - i,
    {
        let (a, b) = ls[i];
        assert(ranges_ok(v@, ls@) ==> ls@[i as int].0 <= ls@[i as int].1 <= v@.len());
        let ghost o0 = out@;
        crate::strings::push_range(&mut out, &v, a, b);
        push_char(&mut out, '\n');
        proof {
            let l = lsv[i as int];
            assert(l == v@.subrange(a as int, b as int));
            assert(lsv.subrange(bgn as int, i + 1).map_values(|l: Seq<char>| l + seq!['\n'])
                =~= lsv.subrange(bgn as int, i as int).map_values(|l: Seq<char>| l + seq!['\n']).push(
                l + seq!['\n'],
            ));
            crate::strings::lemma_concat_all_push(
                lsv.subrange(bgn as int, i as int).map_values(|l: Seq<char>| l + seq!['\n']),
                l + seq!['\n'],
            );
            assert(out@ =~= o0 + (l + seq!['\n']));
        }
        i = i + 1;
    }
    out
}

fn is_blank_range(v: &Vec<char>, a: usize, b: usize) -> (r: bool)
    requires
        a <= b <= v.len(),
    ensures
        r == is_blank(v@.subrange(a as int, b as int)),
{
    let (ta, tb) = trim_range(v, a, b);
    ta == tb
}

} // verus!
