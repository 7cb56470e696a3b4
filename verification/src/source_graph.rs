//! The source listing of a function: choosing the implemented function a
//! `Contract::function` id names, and the listing of each resolved
//! declaration with its natspec and line range.
use vstd::prelude::*;
use crate::ast::{format_params, params_text, TypeStyle};
use crate::function_source::{ContractMembers, MemberDecl, SourceContracts};
use crate::order::{dedup_spec, dedup_texts, sort_texts, texts_sorted, texts_view};
use crate::source_output::{fits, has_boundary};
use crate::strings::{
    before_first, byte_len, chars_eq, chars_of, decimal, decimal_exec, find_exec, find_spec, join_spec, join_texts,
    push_str, string_of_range,
};
use crate::text::{
    base_indent, base_indent_spec, build_line_offsets, byte_offset_to_line, char_pos, dedent, dedent_spec, extract_natspec,
    line_of_spec, line_offsets_spec, natspec_spec, range_end,
};

verus! {

/// A resolved declaration of a source listing.
pub struct SourceSymbol {
    /// `Contract::name(types)` for the root, the declaration's name for others.
    pub symbol: String,
    pub file: String,
    pub offset: usize,
    pub length: usize,
}

/// Specification value of a symbol.
pub open spec fn ssym_view(s: SourceSymbol) -> (Seq<char>, Seq<char>, usize, usize) {
    (s.symbol@, s.file@, s.offset, s.length)
}

/// Specification values of symbols.
pub open spec fn ssyms_view(v: Seq<SourceSymbol>) -> Seq<(Seq<char>, Seq<char>, usize, usize)> {
    v.map_values(|s: SourceSymbol| ssym_view(s))
}

/// Whether a symbol with text `sym` is among `acc`.
pub open spec fn has_ssym(acc: Seq<(Seq<char>, Seq<char>, usize, usize)>, sym: Seq<char>) -> bool {
    exists|i: int| 0 <= i < acc.len() && (#[trigger] acc[i]).0 == sym
}

/// The signature of a function of contract `c`: `C::name(types)`.
pub open spec fn sg_signature(c: Seq<char>, m: MemberDecl) -> Seq<char> {
    c + "::"@ + m.name@ + "("@ + params_text(m.parameters@, TypeStyle::Plain) + ")"@
}

/// Whether a member is one of the implemented functions named `fname`.
pub open spec fn sg_taken(m: MemberDecl, fname: Seq<char>) -> bool {
    !m.is_variable && m.implemented && m.name@ == fname
}

/// Add the implemented functions named `fname` of `c.members[0..k]` (the
/// first of each signature kept).
pub open spec fn sg_add_members(
    acc: Seq<(Seq<char>, Seq<char>, usize, usize)>,
    file: Seq<char>,
    c: ContractMembers,
    contract: Seq<char>,
    fname: Seq<char>,
    k: int,
) -> Seq<(Seq<char>, Seq<char>, usize, usize)>
    decreases k,
{
    if k <= 0 || k > c.members@.len() {
        acc
    } else {
        let prev = sg_add_members(acc, file, c, contract, fname, k - 1);
        let m = c.members@[k - 1];
        if sg_taken(m, fname) && !has_ssym(prev, sg_signature(contract, m)) {
            prev.push((sg_signature(contract, m), file, m.offset, m.length))
        } else {
            prev
        }
    }
}

/// Add those of the contracts named `contract` among `sc.contracts[0..k]`.
pub open spec fn sg_add_contracts(
    acc: Seq<(Seq<char>, Seq<char>, usize, usize)>,
    sc: SourceContracts,
    contract: Seq<char>,
    fname: Seq<char>,
    k: int,
) -> Seq<(Seq<char>, Seq<char>, usize, usize)>
    decreases k,
{
    if k <= 0 || k > sc.contracts@.len() {
        acc
    } else {
        let prev = sg_add_contracts(acc, sc, contract, fname, k - 1);
        let c = sc.contracts@[k - 1];
        if c.name@ == contract {
            sg_add_members(prev, sc.file@, c, contract, fname, c.members@.len() as int)
        } else {
            prev
        }
    }
}

/// Add those of the source units `ss[0..k]`.
pub open spec fn sg_add_sources(
    acc: Seq<(Seq<char>, Seq<char>, usize, usize)>,
    ss: Seq<SourceContracts>,
    contract: Seq<char>,
    fname: Seq<char>,
    k: int,
) -> Seq<(Seq<char>, Seq<char>, usize, usize)>
    decreases k,
{
    if k <= 0 || k > ss.len() {
        acc
    } else {
        let prev = sg_add_sources(acc, ss, contract, fname, k - 1);
        sg_add_contracts(prev, ss[k - 1], contract, fname, ss[k - 1].contracts@.len() as int)
    }
}

/// The names of the implemented functions of `c.members[0..k]`.
pub open spec fn sg_member_names(c: ContractMembers, k: int) -> Seq<Seq<char>>
    decreases k,
{
    if k <= 0 || k > c.members@.len() {
        Seq::empty()
    } else {
        let prev = sg_member_names(c, k - 1);
        let m = c.members@[k - 1];
        if !m.is_variable && m.implemented {
            prev.push(m.name@)
        } else {
            prev
        }
    }
}

/// Those of the contracts named `contract` among `sc.contracts[0..k]`.
pub open spec fn sg_contract_names(sc: SourceContracts, contract: Seq<char>, k: int) -> Seq<Seq<char>>
    decreases k,
{
    if k <= 0 || k > sc.contracts@.len() {
        Seq::empty()
    } else {
        let c = sc.contracts@[k - 1];
        sg_contract_names(sc, contract, k - 1) + if c.name@ == contract {
            sg_member_names(c, c.members@.len() as int)
        } else {
            Seq::empty()
        }
    }
}

/// Those of the source units `ss[0..k]`.
pub open spec fn sg_source_names(ss: Seq<SourceContracts>, contract: Seq<char>, k: int) -> Seq<Seq<char>>
    decreases k,
{
    if k <= 0 || k > ss.len() {
        Seq::empty()
    } else {
        sg_source_names(ss, contract, k - 1) + sg_contract_names(ss[k - 1], contract, ss[k - 1].contracts@.len() as int)
    }
}

/// One suggestion line per text of `syms[0..k]`.
pub open spec fn sg_lines(syms: Seq<Seq<char>>, k: int) -> Seq<char>
    decreases k,
{
    if k <= 0 || k > syms.len() {
        Seq::empty()
    } else {
        sg_lines(syms, k - 1) + "\nhawk inspect sources \""@ + syms[k - 1] + "\""@
    }
}

/// The sorted suggestion block of symbols `fs`.
pub open spec fn sg_block(fs: Seq<(Seq<char>, Seq<char>, usize, usize)>) -> Seq<char> {
    let sorted = texts_sorted(fs.map_values(|s: (Seq<char>, Seq<char>, usize, usize)| s.0));
    sg_lines(sorted, sorted.len() as int) + "\n"@
}

/// The first of `fs[0..k]` whose text is `sig`.
pub open spec fn first_with_symbol(fs: Seq<(Seq<char>, Seq<char>, usize, usize)>, sig: Seq<char>, k: int) -> Option<int>
    decreases k,
{
    if k <= 0 || k > fs.len() {
        None
    } else {
        match first_with_symbol(fs, sig, k - 1) {
            Some(i) => Some(i),
            None => if fs[k - 1].0 == sig { Some(k - 1) } else { None },
        }
    }
}

/// The function a source listing starts from: the implemented function of
/// contract `contract` named `fname` (with its parameter types when given),
/// across the source units `ss`; or the error message.
pub open spec fn sg_select_spec(ss: Seq<SourceContracts>, contract: Seq<char>, fname: Seq<char>) -> Result<
    (Seq<char>, Seq<char>, usize, usize),
    Seq<char>,
> {
    let is_exact = find_spec(fname, seq!['(']) is Some;
    let base = before_first(fname, seq!['(']);
    let fs = sg_add_sources(Seq::empty(), ss, contract, base, ss.len() as int);
    if fs.len() == 0 {
        Err("\""@ + fname + "\" not found in \""@ + contract + "\".\n\nAvailable functions in \""@ + contract + "\": "@
            + join_spec(dedup_spec(texts_sorted(sg_source_names(ss, contract, ss.len() as int))), ", "@))
    } else if is_exact {
        match first_with_symbol(fs, contract + "::"@ + fname, fs.len() as int) {
            Some(i) => Ok(fs[i]),
            None => Err("\""@ + fname + "\" not found in \""@ + contract + "\".\n\nSelect one of the following:\n"@ + sg_block(fs)),
        }
    } else if fs.len() > 1 {
        Err("found "@ + decimal(fs.len()) + " \""@ + contract + "::"@ + fname + "\"\n\nSelect one of the following:\n"@
            + sg_block(fs))
    } else {
        Ok(fs[0])
    }
}


fn has_ssym_exec(acc: &Vec<SourceSymbol>, sym: &str) -> (b: bool)
    ensures
        b == has_ssym(ssyms_view(acc@), sym@),
{
    let sv = chars_of(sym);
    let mut i: usize = 0;
    while i < acc.len()
        invariant
            sv@ == sym@,
            i <= acc@.len(),
            forall|j: int| 0 <= j < i ==> (#[trigger] ssyms_view(acc@)[j]).0 != sym@,
        decreases acc@.len() - i,
    {
        let av = chars_of(acc[i].symbol.as_str());
        if chars_eq(&av, &sv) {
            assert(ssyms_view(acc@)[i as int].0 == sym@);
            return true;
        }
        i = i + 1;
    }
    false
}

fn sg_add_contracts_exec(acc: &mut Vec<SourceSymbol>, sc: &SourceContracts, contract: &str, fname: &str)
    ensures
        ssyms_view(final(acc)@) == sg_add_contracts(ssyms_view(old(acc)@), *sc, contract@, fname@, sc.contracts@.len() as int),
{
    let ghost a0 = ssyms_view(acc@);
    let cv = chars_of(contract);
    let fv = chars_of(fname);
    let mut k: usize = 0;
    while k < sc.contracts.len()
        invariant
            cv@ == contract@,
            fv@ == fname@,
            k <= sc.contracts@.len(),
            ssyms_view(acc@) == sg_add_contracts(a0, *sc, contract@, fname@, k as int),
        decreases sc.contracts@.len() - k,
    {
        let c = &sc.contracts[k];
        let nv = chars_of(c.name.as_str());
        if chars_eq(&nv, &cv) {
            let ghost b0 = ssyms_view(acc@);
            let mut j: usize = 0;
            while j < c.members.len()
                invariant
                    fv@ == fname@,
                    j <= c.members@.len(),
                    ssyms_view(acc@) == sg_add_members(b0, sc.file@, *c, contract@, fname@, j as int),
                decreases c.members@.len() - j,
            {
                let m = &c.members[j];
                let mv = chars_of(m.name.as_str());
                if !m.is_variable && m.implemented && chars_eq(&mv, &fv) {
                    let mut sig = String::from_str(contract);
                    push_str(&mut sig, "::");
                    push_str(&mut sig, m.name.as_str());
                    push_str(&mut sig, "(");
                    let ps = format_params(&m.parameters, TypeStyle::Plain);
                    push_str(&mut sig, ps.as_str());
                    push_str(&mut sig, ")");
                    assert(sig@ == sg_signature(contract@, *m));
                    if !has_ssym_exec(acc, sig.as_str()) {
                        let ghost before = acc@;
                        let item = SourceSymbol { symbol: sig, file: sc.file.clone(), offset: m.offset, length: m.length };
                        acc.push(item);
                        assert(ssyms_view(acc@) =~= ssyms_view(before).push(ssym_view(item)));
                    }
                }
                j = j + 1;
            }
        }
        k = k + 1;
    }
}

fn sg_names_exec(out: &mut Vec<String>, sc: &SourceContracts, contract: &str)
    ensures
        texts_view(final(out)@) == texts_view(old(out)@) + sg_contract_names(*sc, contract@, sc.contracts@.len() as int),
{
    let ghost o0 = texts_view(out@);
    let cv = chars_of(contract);
    let mut k: usize = 0;
    while k < sc.contracts.len()
        invariant
            cv@ == contract@,
            k <= sc.contracts@.len(),
            texts_view(out@) == o0 + sg_contract_names(*sc, contract@, k as int),
        decreases sc.contracts@.len() - k,
    {
        let c = &sc.contracts[k];
        let nv = chars_of(c.name.as_str());
        let ghost before = texts_view(out@);
        if chars_eq(&nv, &cv) {
            let mut j: usize = 0;
            while j < c.members.len()
                invariant
                    j <= c.members@.len(),
                    texts_view(out@) == before + sg_member_names(*c, j as int),
                decreases c.members@.len() - j,
            {
                let m = &c.members[j];
                if !m.is_variable && m.implemented {
                    let n = m.name.clone();
                    let ghost b2 = out@;
                    out.push(n);
                    assert(texts_view(out@) =~= texts_view(b2).push(n@));
                }
                j = j + 1;
            }
        }
        assert(texts_view(out@) =~= o0 + sg_contract_names(*sc, contract@, k + 1));
        k = k + 1;
    }
}

/// The sorted suggestion block of symbols.
fn sg_block_exec(fs: &Vec<SourceSymbol>) -> (r: String)
    ensures
        r@ == sg_block(ssyms_view(fs@)),
{
    let ghost all = ssyms_view(fs@).map_values(|s: (Seq<char>, Seq<char>, usize, usize)| s.0);
    let mut texts: Vec<String> = Vec::new();
    let mut i: usize = 0;
    while i < fs.len()
        invariant
            all == ssyms_view(fs@).map_values(|s: (Seq<char>, Seq<char>, usize, usize)| s.0),
            i <= fs@.len(),
            texts_view(texts@) == all.take(i as int),
        decreases fs@.len() - i,
    {
        let t = fs[i].symbol.clone();
        let ghost before = texts@;
        texts.push(t);
        assert(all[i as int] == t@);
        assert(texts_view(texts@) =~= texts_view(before).push(t@));
        assert(texts_view(texts@) =~= all.take(i + 1));
        i = i + 1;
    }
    assert(all.take(fs@.len() as int) =~= all);
    let sorted = sort_texts(&texts);
    let ghost st = texts_view(sorted@);
    let mut r = String::new();
    let mut k: usize = 0;
    while k < sorted.len()
        invariant
            st == texts_view(sorted@),
            k <= st.len(),
            r@ == sg_lines(st, k as int),
        decreases st.len() - k,
    {
        push_str(&mut r, "\nhawk inspect sources \"");
        push_str(&mut r, sorted[k].as_str());
        push_str(&mut r, "\"");
        assert(r@ =~= sg_lines(st, k + 1));
        k = k + 1;
    }
    push_str(&mut r, "\n");
    r
}

/// Choose the implemented function of contract `contract` named `fname`
/// (`name` or `name(types)`) across the source units `sources`.
pub fn find_source_function(sources: &Vec<SourceContracts>, contract: &str, fname: &str) -> (r: Result<SourceSymbol, String>)
    ensures
        match sg_select_spec(sources@, contract@, fname@) {
            Ok(s) => r matches Ok(x) && ssym_view(x) == s,
            Err(e) => r matches Err(m) && m@ == e,
        },
{
    let fv = chars_of(fname);
    let mut paren: Vec<char> = Vec::new();
    paren.push('(');
    assert(paren@ =~= seq!['(']);
    let found = find_exec(&fv, &paren);
    let base = match found {
        Some(pos) => string_of_range(&fv, 0, pos),
        None => String::from_str(fname),
    };
    let mut fs: Vec<SourceSymbol> = Vec::new();
    assert(ssyms_view(fs@) =~= Seq::<(Seq<char>, Seq<char>, usize, usize)>::empty());
    let mut k: usize = 0;
    while k < sources.len()
        invariant
            base@ == before_first(fname@, seq!['(']),
            k <= sources@.len(),
            ssyms_view(fs@) == sg_add_sources(Seq::empty(), sources@, contract@, base@, k as int),
        decreases sources@.len() - k,
    {
        sg_add_contracts_exec(&mut fs, &sources[k], contract, base.as_str());
        k = k + 1;
    }
    let ghost fv2 = ssyms_view(fs@);
    if fs.len() == 0 {
        let mut names: Vec<String> = Vec::new();
        let mut q: usize = 0;
        while q < sources.len()
            invariant
                q <= sources@.len(),
                texts_view(names@) == sg_source_names(sources@, contract@, q as int),
            decreases sources@.len() - q,
        {
            sg_names_exec(&mut names, &sources[q], contract);
            q = q + 1;
        }
        let sorted = sort_texts(&names);
        let uniq = dedup_texts(&sorted);
        let list = join_texts(&uniq, ", ");
        let mut msg = String::from_str("\"");
        push_str(&mut msg, fname);
        push_str(&mut msg, "\" not found in \"");
        push_str(&mut msg, contract);
        push_str(&mut msg, "\".\n\nAvailable functions in \"");
        push_str(&mut msg, contract);
        push_str(&mut msg, "\": ");
        push_str(&mut msg, list.as_str());
        return Err(msg);
    }
    if found.is_some() {
        let mut target = String::from_str(contract);
        push_str(&mut target, "::");
        push_str(&mut target, fname);
        let tv = chars_of(target.as_str());
        assert(find_spec(fname@, seq!['(']) is Some);
        let mut i: usize = 0;
        while i < fs.len()
            invariant
                find_spec(fname@, seq!['(']) is Some,
                fv2 == sg_add_sources(Seq::empty(), sources@, contract@, before_first(fname@, seq!['(']), sources@.len() as int),
                fv2.len() > 0,
                fv2 == ssyms_view(fs@),
                tv@ == contract@ + "::"@ + fname@,
                i <= fs@.len(),
                first_with_symbol(fv2, tv@, i as int) is None,
            decreases fs@.len() - i,
        {
            let sv = chars_of(fs[i].symbol.as_str());
            assert(fv2[i as int] == ssym_view(fs@[i as int]));
            if chars_eq(&sv, &tv) {
                proof {
                    assert(fv2[i as int].0 == tv@);
                    assert(first_with_symbol(fv2, tv@, i + 1) == Some(i as int));
                    lemma_first_with_symbol_stays(fv2, tv@, i + 1, fv2.len() as int);
                    assert(find_spec(fname@, seq!['(']) is Some);
                }
                let s = &fs[i];
                let out = SourceSymbol { symbol: s.symbol.clone(), file: s.file.clone(), offset: s.offset, length: s.length };
                assert(ssym_view(out) == fv2[i as int]);
                return Ok(out);
            }
            i = i + 1;
        }
        let mut msg = String::from_str("\"");
        push_str(&mut msg, fname);
        push_str(&mut msg, "\" not found in \"");
        push_str(&mut msg, contract);
        push_str(&mut msg, "\".\n\nSelect one of the following:\n");
        let b = sg_block_exec(&fs);
        push_str(&mut msg, b.as_str());
        return Err(msg);
    }
    if fs.len() > 1 {
        let mut msg = String::from_str("found ");
        let n = decimal_exec(fs.len());
        push_str(&mut msg, n.as_str());
        push_str(&mut msg, " \"");
        push_str(&mut msg, contract);
        push_str(&mut msg, "::");
        push_str(&mut msg, fname);
        push_str(&mut msg, "\"\n\nSelect one of the following:\n");
        let b = sg_block_exec(&fs);
        push_str(&mut msg, b.as_str());
        return Err(msg);
    }
    let s = &fs[0];
    assert(fv2[0] == ssym_view(*s));
    Ok(SourceSymbol { symbol: s.symbol.clone(), file: s.file.clone(), offset: s.offset, length: s.length })
}

proof fn lemma_first_with_symbol_stays(fs: Seq<(Seq<char>, Seq<char>, usize, usize)>, sig: Seq<char>, k: int, m: int)
    requires
        0 < k <= m <= fs.len(),
        first_with_symbol(fs, sig, k) is Some,
    ensures
        first_with_symbol(fs, sig, m) == first_with_symbol(fs, sig, k),
    decreases m - k,
{
    if k < m {
        lemma_first_with_symbol_stays(fs, sig, k, m - 1);
    }
}


/// The listing of one symbol: its header, natspec and source, or a note
/// that its file could not be read.
pub open spec fn listing_entry(s: (Seq<char>, Seq<char>, usize, usize), display: Seq<char>, content: Option<Seq<char>>) -> Seq<char> {
    match content {
        None => "// symbol: "@ + s.0 + "\n// path: "@ + display + " (unable to read)\n\n"@,
        Some(c) => {
            let offs = line_offsets_spec(c);
            let a = line_of_spec(s.2, offs);
            let b = line_of_spec(range_end(s.2 as nat, s.3 as nat), offs);
            let k = char_pos(c, s.2 as nat);
            let base = base_indent_spec(c, k);
            "// symbol: "@ + s.0 + "\n// path: "@ + display + "#L"@ + decimal(a) + "-L"@ + decimal(b) + "\n\n"@
                + dedent_spec(natspec_spec(c, k), base) + dedent_spec(c.subrange(k, char_pos(c, (s.2 + s.3) as nat)), base)
                + "\n\n"@
        },
    }
}

/// The listing of `ss[0..k]`.
pub open spec fn listing_spec(
    ss: Seq<(Seq<char>, Seq<char>, usize, usize)>,
    displays: Seq<Seq<char>>,
    contents: Seq<Option<Seq<char>>>,
    k: int,
) -> Seq<char>
    decreases k,
{
    if k <= 0 || k > ss.len() {
        Seq::empty()
    } else {
        listing_spec(ss, displays, contents, k - 1) + listing_entry(ss[k - 1], displays[k - 1], contents[k - 1])
    }
}

/// The contents that can be listed: char boundaries where the symbol's
/// range starts and ends.
pub open spec fn listable(ss: Seq<(Seq<char>, Seq<char>, usize, usize)>, contents: Seq<Option<String>>) -> bool {
    &&& contents.len() == ss.len()
    &&& forall|i: int| 0 <= i < contents.len() ==> (#[trigger] contents[i] matches Some(c) ==> fits(
        c@,
        (ss[i].0, ss[i].1, ss[i].2, ss[i].3, Seq::empty()),
        true,
    ) && byte_len(c@) <= usize::MAX)
}

fn listing_entry_exec(s: &SourceSymbol, display: &str, content: &Option<String>) -> (r: String)
    requires
        content matches Some(c) ==> fits(c@, (s.symbol@, s.file@, s.offset, s.length, Seq::empty()), true) && byte_len(c@) <= usize::MAX,
    ensures
        r@ == listing_entry(ssym_view(*s), display@, crate::ids::opt_view(*content)),
{
    let mut r = String::from_str("// symbol: ");
    push_str(&mut r, s.symbol.as_str());
    push_str(&mut r, "\n// path: ");
    push_str(&mut r, display);
    match content {
        None => {
            push_str(&mut r, " (unable to read)\n\n");
            r
        },
        Some(c) => {
            proof {
                crate::source_output::lemma_boundary_in_text(c@, s.offset as nat);
                crate::text::lemma_line_offsets_sorted(c@);
            }
            let offs = build_line_offsets(c.as_str());
            let a = byte_offset_to_line(s.offset, &offs);
            let end = s.offset.saturating_add(s.length).saturating_sub(1);
            let b = byte_offset_to_line(end, &offs);
            push_str(&mut r, "#L");
            let ad = decimal_exec(a);
            push_str(&mut r, ad.as_str());
            push_str(&mut r, "-L");
            let bd = decimal_exec(b);
            push_str(&mut r, bd.as_str());
            push_str(&mut r, "\n\n");
            let n = extract_natspec(c.as_str(), s.offset);
            let base = base_indent(c.as_str(), s.offset);
            let nd = dedent(n.as_str(), base);
            push_str(&mut r, nd.as_str());
            let src = crate::source_output::byte_slice(c.as_str(), s.offset, s.offset + s.length);
            let sd = dedent(src.as_str(), base);
            push_str(&mut r, sd.as_str());
            push_str(&mut r, "\n\n");
            r
        },
    }
}

/// The listing of the resolved symbols, given how each file is shown and
/// its text (`None` where it could not be read).
pub fn format_sources(symbols: &Vec<SourceSymbol>, displays: &Vec<String>, contents: &Vec<Option<String>>) -> (r: String)
    requires
        displays@.len() == symbols@.len(),
        listable(ssyms_view(symbols@), contents@),
    ensures
        r@ == listing_spec(
            ssyms_view(symbols@),
            texts_view(displays@),
            contents@.map_values(|o: Option<String>| crate::ids::opt_view(o)),
            symbols@.len() as int,
        ),
{
    let ghost ss = ssyms_view(symbols@);
    let ghost cs = contents@.map_values(|o: Option<String>| crate::ids::opt_view(o));
    let mut r = String::new();
    let mut i: usize = 0;
    while i < symbols.len()
        invariant
            ss == ssyms_view(symbols@),
            cs == contents@.map_values(|o: Option<String>| crate::ids::opt_view(o)),
            displays@.len() == symbols@.len(),
            listable(ss, contents@),
            i <= symbols@.len(),
            r@ == listing_spec(ss, texts_view(displays@), cs, i as int),
        decreases symbols@.len() - i,
    {
        assert(ss[i as int] == ssym_view(symbols@[i as int]));
        let e = listing_entry_exec(&symbols[i], displays[i].as_str(), &contents[i]);
        push_str(&mut r, e.as_str());
        assert(r@ =~= listing_spec(ss, texts_view(displays@), cs, i + 1));
        i = i + 1;
    }
    r
}

/// The message for a contract that several artifacts define: one
/// suggestion per artifact (shown by `displays`, in index order).
pub open spec fn sg_ambiguity_spec(displays: Seq<Seq<char>>, contract: Seq<char>, function: Seq<char>, k: int) -> Seq<char>
    decreases k,
{
    if k <= 0 || k > displays.len() {
        "found "@ + decimal(displays.len()) + " \""@ + contract + "\"\n\nSelect one of the following:\n"@
    } else {
        sg_ambiguity_spec(displays, contract, function, k - 1) + "\nhawk inspect sources "@ + displays[k - 1] + ":"@ + contract
            + "::"@ + function
    }
}

/// The message for a contract that several artifacts define.
pub fn sources_ambiguity(displays: &Vec<String>, contract: &str, function: &str) -> (r: String)
    ensures
        r@ == sg_ambiguity_spec(texts_view(displays@), contract@, function@, displays@.len() as int) + "\n"@,
{
    let ghost dv = texts_view(displays@);
    let mut r = String::from_str("found ");
    let n = decimal_exec(displays.len());
    push_str(&mut r, n.as_str());
    push_str(&mut r, " \"");
    push_str(&mut r, contract);
    push_str(&mut r, "\"\n\nSelect one of the following:\n");
    let mut i: usize = 0;
    while i < displays.len()
        invariant
            dv == texts_view(displays@),
            i <= displays@.len(),
            r@ == sg_ambiguity_spec(dv, contract@, function@, i as int),
        decreases displays@.len() - i,
    {
        push_str(&mut r, "\nhawk inspect sources ");
        push_str(&mut r, displays[i].as_str());
        push_str(&mut r, ":");
        push_str(&mut r, contract);
        push_str(&mut r, "::");
        push_str(&mut r, function);
        assert(r@ =~= sg_ambiguity_spec(dv, contract@, function@, i + 1));
        i = i + 1;
    }
    push_str(&mut r, "\n");
    r
}

} // verus!
