//! Rendering a function-source report: the root function's source with its
//! natspec, then every declaration it references, grouped by kind and
//! sorted by name.
use vstd::prelude::*;
use crate::function_source::{sym_view, syms_view, ResolvedSymbol};
use crate::order::{is_key_order, key_order, key_sorted_order, push_text_key, text_key};
use crate::strings::{
    before_first, byte_len, rfind_exec, rfind_spec, starts_with, trim_spec, chars_of, decimal, decimal_exec, find_exec, find_spec, occurs_at, push_str,
    string_of_range, trailing_ws, trim_end_spec,
};
use crate::text::{
    base_indent, base_indent_spec, char_pos, contract_header, dedent, dedent_spec, extract_natspec, header_spec,
    is_boundary, line_at, line_at_spec, natspec_spec,
};

verus! {

/// The section heading of a node type.
pub open spec fn heading_spec(nt: Seq<char>) -> Seq<char> {
    if nt == "FunctionDefinition"@ {
        "Function"@
    } else if nt == "VariableDeclaration"@ {
        "Variable"@
    } else if nt == "StructDefinition"@ {
        "Struct"@
    } else if nt == "EnumDefinition"@ {
        "Enum"@
    } else if nt == "ErrorDefinition"@ {
        "Error"@
    } else if nt == "EventDefinition"@ {
        "Event"@
    } else if nt == "ContractDefinition"@ {
        "Contract"@
    } else if nt == "AbstractContractDefinition"@ {
        "Abstract Contract"@
    } else if nt == "InterfaceDefinition"@ {
        "Interface"@
    } else if nt == "LibraryDefinition"@ {
        "Library"@
    } else if nt == "ModifierDefinition"@ {
        "Modifier"@
    } else if nt == "UserDefinedValueTypeDefinition"@ {
        "User Defined Value Type"@
    } else {
        "Declaration"@
    }
}

/// Whether a node type is a kind of contract definition.
pub open spec fn is_contract_type(nt: Seq<char>) -> bool {
    nt == "ContractDefinition"@ || nt == "AbstractContractDefinition"@ || nt == "InterfaceDefinition"@
        || nt == "LibraryDefinition"@
}

/// The name a symbol is shown under: a function's bare name, a variable's
/// name, otherwise the whole symbol.
pub open spec fn display_spec(sym: Seq<char>, nt: Seq<char>) -> Seq<char> {
    match find_spec(sym, seq!['.']) {
        Some(i) => {
            let after = sym.subrange(i + 1, sym.len() as int);
            if nt == "FunctionDefinition"@ {
                before_first(after, seq!['('])
            } else if nt == "VariableDeclaration"@ {
                after
            } else {
                sym
            }
        },
        None => sym,
    }
}

/// ASCII lowercase of a char.
pub open spec fn lower_char(c: char) -> char {
    if 'A' <= c && c <= 'Z' {
        ((c as u32) + 32) as char
    } else {
        c
    }
}

/// ASCII lowercase of a text.
pub open spec fn lower_spec(s: Seq<char>) -> Seq<char> {
    s.map_values(|c: char| lower_char(c))
}

/// Sort key of a referenced symbol: its heading, then its lowercase name.
pub open spec fn symbol_key(s: (Seq<char>, Seq<char>, usize, usize, Seq<char>)) -> Seq<u128> {
    text_key(heading_spec(s.4), false) + text_key(lower_spec(display_spec(s.0, s.4)), false)
}

/// Sort keys of symbols.
pub open spec fn symbol_keys(ss: Seq<(Seq<char>, Seq<char>, usize, usize, Seq<char>)>) -> Seq<Seq<u128>> {
    ss.map_values(|s: (Seq<char>, Seq<char>, usize, usize, Seq<char>)| symbol_key(s))
}

/// The source text a section shows: a contract's header, or the whole
/// declaration; before dedenting.
pub open spec fn raw_source(c: Seq<char>, s: (Seq<char>, Seq<char>, usize, usize, Seq<char>), header: bool) -> Seq<char> {
    let k = char_pos(c, s.2 as nat);
    if header {
        header_spec(c.subrange(k, c.len() as int))
    } else {
        c.subrange(k, char_pos(c, (s.2 + s.3) as nat))
    }
}

/// The natspec a section shows (ending in a newline), or nothing.
pub open spec fn natspec_part(c: Seq<char>, s: (Seq<char>, Seq<char>, usize, usize, Seq<char>), ovr: Option<Seq<char>>) -> Seq<char> {
    let k = char_pos(c, s.2 as nat);
    let n1 = match ovr {
        Some(o) => o,
        None => natspec_spec(c, k),
    };
    let n = dedent_spec(n1, base_indent_spec(c, k));
    if n.len() == 0 {
        Seq::empty()
    } else {
        trim_end_spec(n) + "\n"@
    }
}

/// The code block of a section.
pub open spec fn code_block(c: Seq<char>, s: (Seq<char>, Seq<char>, usize, usize, Seq<char>), ovr: Option<Seq<char>>, header: bool) -> Seq<char> {
    let k = char_pos(c, s.2 as nat);
    "```solidity\n"@ + natspec_part(c, s, ovr) + trim_end_spec(dedent_spec(raw_source(c, s, header), base_indent_spec(c, k)))
        + "\n```\n"@
}

/// The root section.
pub open spec fn root_section(s: (Seq<char>, Seq<char>, usize, usize, Seq<char>), content: Option<Seq<char>>, ovr: Option<Seq<char>>) -> Seq<char> {
    "# "@ + before_first(s.0, seq!['.']) + " - "@ + display_spec(s.0, s.4) + " Source Code\n\n"@ + match content {
        Some(c) => "Source path: `"@ + s.1 + ":"@ + decimal(line_at_spec(c, s.2 as nat)) + "`\n\n"@ + code_block(c, s, ovr, false),
        None => "Source path: `"@ + s.1 + "`\n\n```solidity\n// unable to read source\n```\n"@,
    }
}

/// The section of a referenced symbol.
pub open spec fn ref_section(s: (Seq<char>, Seq<char>, usize, usize, Seq<char>), content: Option<Seq<char>>, ovr: Option<Seq<char>>) -> Seq<char> {
    "\n---\n\n## "@ + heading_spec(s.4) + ": `"@ + display_spec(s.0, s.4) + "`\n\n"@ + match content {
        Some(c) => "Source path: `"@ + s.1 + ":"@ + decimal(line_at_spec(c, s.2 as nat)) + "`\n\n"@
            + code_block(c, s, ovr, is_contract_type(s.4)),
        None => "Source path: `"@ + s.1 + "`\n\n```solidity\n// unable to read\n```\n"@,
    }
}

/// The sections of the referenced symbols `o[0..k]` (positions among
/// `ss[1..]`).
pub open spec fn ref_sections(
    ss: Seq<(Seq<char>, Seq<char>, usize, usize, Seq<char>)>,
    contents: Seq<Option<Seq<char>>>,
    ovrs: Seq<Option<Seq<char>>>,
    o: Seq<usize>,
    k: int,
) -> Seq<char>
    decreases k,
{
    if k <= 0 || k > o.len() {
        Seq::empty()
    } else {
        let j = o[k - 1] as int + 1;
        ref_sections(ss, contents, ovrs, o, k - 1) + ref_section(ss[j], contents[j], ovrs[j])
    }
}

/// The whole report: nothing without symbols.
pub open spec fn report_spec(
    ss: Seq<(Seq<char>, Seq<char>, usize, usize, Seq<char>)>,
    contents: Seq<Option<Seq<char>>>,
    ovrs: Seq<Option<Seq<char>>>,
) -> Seq<char> {
    if ss.len() == 0 {
        Seq::empty()
    } else {
        let o = key_sorted_order(symbol_keys(ss.drop_first()));
        root_section(ss[0], contents[0], ovrs[0]) + ref_sections(ss, contents, ovrs, o, o.len() as int)
    }
}

/// A char boundary of `c` lies at byte `off`.
pub open spec fn has_boundary(c: Seq<char>, off: nat) -> bool {
    exists|k: int| is_boundary(c, off, k)
}

/// The byte ranges a section slices lie on char boundaries of its content.
pub open spec fn fits(c: Seq<char>, s: (Seq<char>, Seq<char>, usize, usize, Seq<char>), need_end: bool) -> bool {
    &&& c.len() < usize::MAX
    &&& has_boundary(c, s.2 as nat)
    &&& need_end ==> (s.2 + s.3 <= usize::MAX && has_boundary(c, (s.2 + s.3) as nat))
}

/// The output of a function-source query: the root symbol first, then
/// every declaration it references.
pub struct FunctionSourceInspectorOutput {
    pub symbols: Vec<ResolvedSymbol>,
    pub project_path: String,
}

/// ASCII lowercase of a text.
fn lower_exec(s: &str) -> (r: String)
    ensures
        r@ == lower_spec(s@),
{
    let v = chars_of(s);
    let mut r = String::new();
    let mut i: usize = 0;
    while i < v.len()
        invariant
            i <= v@.len(),
            r@ == lower_spec(v@.take(i as int)),
            v@ == s@,
        decreases v@.len() - i,
    {
        let c = v[i];
        let d = if 'A' <= c && c <= 'Z' {
            let b: u8 = (c as u32) as u8;
            let x = (b + 32u8) as char;
            assert(x == (((c as u32) + 32) as char));
            x
        } else {
            c
        };
        assert(d == lower_char(c));
        crate::strings::push_char(&mut r, d);
        proof {
            assert(lower_spec(v@.take(i + 1)) =~= lower_spec(v@.take(i as int)).push(d));
        }
        i = i + 1;
    }
    assert(v@.take(v@.len() as int) =~= v@);
    r
}


/// A boundary lies no further than the end of the text.
pub proof fn lemma_boundary_in_text(c: Seq<char>, off: nat)
    requires
        has_boundary(c, off),
    ensures
        off <= byte_len(c),
        is_boundary(c, off, char_pos(c, off)),
{
    let k = choose|k: int| is_boundary(c, off, k);
    crate::strings::lemma_byte_len_mono(c, k, c.len() as int);
    assert(c.take(c.len() as int) =~= c);
}

/// Whether `s` is the text of `lit`.
fn text_is(s: &Vec<char>, lit: &str) -> (b: bool)
    ensures
        b == (s@ == lit@),
{
    let l = chars_of(lit);
    crate::strings::chars_eq(s, &l)
}

/// The section heading of a node type.
fn heading_exec(nt: &str) -> (r: String)
    ensures
        r@ == heading_spec(nt@),
{
    let v = chars_of(nt);
    if text_is(&v, "FunctionDefinition") {
        String::from_str("Function")
    } else if text_is(&v, "VariableDeclaration") {
        String::from_str("Variable")
    } else if text_is(&v, "StructDefinition") {
        String::from_str("Struct")
    } else if text_is(&v, "EnumDefinition") {
        String::from_str("Enum")
    } else if text_is(&v, "ErrorDefinition") {
        String::from_str("Error")
    } else if text_is(&v, "EventDefinition") {
        String::from_str("Event")
    } else if text_is(&v, "ContractDefinition") {
        String::from_str("Contract")
    } else if text_is(&v, "AbstractContractDefinition") {
        String::from_str("Abstract Contract")
    } else if text_is(&v, "InterfaceDefinition") {
        String::from_str("Interface")
    } else if text_is(&v, "LibraryDefinition") {
        String::from_str("Library")
    } else if text_is(&v, "ModifierDefinition") {
        String::from_str("Modifier")
    } else if text_is(&v, "UserDefinedValueTypeDefinition") {
        String::from_str("User Defined Value Type")
    } else {
        String::from_str("Declaration")
    }
}

/// Whether a node type is a kind of contract definition.
fn is_contract_type_exec(nt: &str) -> (b: bool)
    ensures
        b == is_contract_type(nt@),
{
    let v = chars_of(nt);
    text_is(&v, "ContractDefinition") || text_is(&v, "AbstractContractDefinition") || text_is(&v, "InterfaceDefinition")
        || text_is(&v, "LibraryDefinition")
}

/// The name a symbol is shown under.
fn display_exec(sym: &str, nt: &str) -> (r: String)
    ensures
        r@ == display_spec(sym@, nt@),
{
    let v = chars_of(sym);
    let mut dot: Vec<char> = Vec::new();
    dot.push('.');
    assert(dot@ =~= seq!['.']);
    match find_exec(&v, &dot) {
        Some(i) => {
            assert(occurs_at(v@, i as int, dot@));
            let n = v.len();
            let j: usize = i + 1;
            let after = string_of_range(&v, j, n);
            let t = chars_of(nt);
            if text_is(&t, "FunctionDefinition") {
                let av = chars_of(after.as_str());
                let mut paren: Vec<char> = Vec::new();
                paren.push('(');
                assert(paren@ =~= seq!['(']);
                match find_exec(&av, &paren) {
                    Some(q) => string_of_range(&av, 0, q),
                    None => after,
                }
            } else if text_is(&t, "VariableDeclaration") {
                after
            } else {
                String::from_str(sym)
            }
        },
        None => String::from_str(sym),
    }
}

/// `s` without trailing whitespace.
fn trim_end_exec(s: &str) -> (r: String)
    ensures
        r@ == trim_end_spec(s@),
{
    let v = chars_of(s);
    let n = v.len();
    let t = crate::strings::trailing_ws_exec(&v, 0, n);
    proof {
        assert(v@.subrange(0, n as int) =~= v@);
        crate::strings::lemma_trailing_ws_bound(v@);
    }
    string_of_range(&v, 0, n - t)
}

/// The natspec a section shows.
fn natspec_part_exec(c: &str, s: &ResolvedSymbol, ovr: &Option<String>) -> (r: String)
    requires
        has_boundary(c@, s.offset as nat),
    ensures
        r@ == natspec_part(c@, sym_view(*s), match ovr { Some(o) => Some(o@), None => None }),
{
    proof {
        lemma_boundary_in_text(c@, s.offset as nat);
    }
    let n1 = match ovr {
        Some(o) => o.clone(),
        None => extract_natspec(c, s.offset),
    };
    let base = base_indent(c, s.offset);
    let n = dedent(n1.as_str(), base);
    if n.as_str().unicode_len() == 0 {
        String::new()
    } else {
        let mut r = trim_end_exec(n.as_str());
        push_str(&mut r, "\n");
        r
    }
}

/// The chars of `c` between two byte boundaries.
pub(crate) fn byte_slice(c: &str, a: usize, b: usize) -> (r: String)
    requires
        has_boundary(c@, a as nat),
        has_boundary(c@, b as nat),
        a <= b,
    ensures
        r@ == c@.subrange(char_pos(c@, a as nat), char_pos(c@, b as nat)),
{
    let v = chars_of(c);
    let (i, _) = crate::text::char_index_of_byte(&v, a);
    let (j, _) = crate::text::char_index_of_byte(&v, b);
    proof {
        lemma_boundary_in_text(c@, a as nat);
        lemma_boundary_in_text(c@, b as nat);
        let ka = char_pos(c@, a as nat);
        let kb = char_pos(c@, b as nat);
        assert(i == ka);
        assert(j == kb);
        if kb < ka {
            crate::strings::lemma_byte_len_mono(c@, kb, ka);
        }
    }
    string_of_range(&v, i, j)
}

/// The code block of a section.
fn code_block_exec(c: &str, s: &ResolvedSymbol, ovr: &Option<String>, header: bool) -> (r: String)
    requires
        fits(c@, sym_view(*s), !header),
    ensures
        r@ == code_block(c@, sym_view(*s), match ovr { Some(o) => Some(o@), None => None }, header),
{
    proof {
        lemma_boundary_in_text(c@, s.offset as nat);
    }
    let mut r = String::from_str("```solidity\n");
    let np = natspec_part_exec(c, s, ovr);
    push_str(&mut r, np.as_str());
    let raw = if header {
        contract_header(c, s.offset)
    } else {
        byte_slice(c, s.offset, s.offset + s.length)
    };
    let base = base_indent(c, s.offset);
    let d = dedent(raw.as_str(), base);
    let t = trim_end_exec(d.as_str());
    push_str(&mut r, t.as_str());
    push_str(&mut r, "\n```\n");
    r
}

/// The `Source path` line with its line number, then the code block.
fn located_block(c: &str, s: &ResolvedSymbol, ovr: &Option<String>, header: bool) -> (r: String)
    requires
        fits(c@, sym_view(*s), !header),
    ensures
        r@ == "Source path: `"@ + s.file@ + ":"@ + decimal(line_at_spec(c@, s.offset as nat)) + "`\n\n"@
            + code_block(c@, sym_view(*s), match ovr { Some(o) => Some(o@), None => None }, header),
{
    proof {
        lemma_boundary_in_text(c@, s.offset as nat);
    }
    let mut r = String::from_str("Source path: `");
    push_str(&mut r, s.file.as_str());
    push_str(&mut r, ":");
    let line = line_at(c, s.offset);
    let ld = decimal_exec(line);
    push_str(&mut r, ld.as_str());
    push_str(&mut r, "`\n\n");
    let b = code_block_exec(c, s, ovr, header);
    push_str(&mut r, b.as_str());
    r
}

/// The views of the contents.
pub open spec fn opts_view(v: Seq<Option<String>>) -> Seq<Option<Seq<char>>> {
    v.map_values(|o: Option<String>| match o { Some(s) => Some(s@), None => None })
}

impl FunctionSourceInspectorOutput {
    /// Create the output of a query from its resolved symbols.
    pub fn new(symbols: Vec<ResolvedSymbol>, project_path: &str) -> (r: Self)
        ensures
            r.symbols@ == symbols@,
            r.project_path@ == project_path@,
    {
        FunctionSourceInspectorOutput { symbols, project_path: String::from_str(project_path) }
    }

    /// The contents each symbol's section slices lie on char boundaries.
    pub open spec fn readable(&self, contents: Seq<Option<String>>) -> bool {
        &&& contents.len() == self.symbols@.len()
        &&& forall|i: int| 0 <= i < contents.len() ==> (#[trigger] contents[i] matches Some(c) ==> fits(
            c@,
            sym_view(self.symbols@[i]),
            i == 0 || !is_contract_type(self.symbols@[i].node_type@),
        ))
    }

    /// Render the report, given the text of each symbol's source file
    /// (`None` where it could not be read) and, for each symbol, the natspec
    /// its `@inheritdoc` resolves to (if any).
    pub fn render(&self, contents: &Vec<Option<String>>, inherited: &Vec<Option<String>>) -> (r: String)
        requires
            self.readable(contents@),
            inherited@.len() == self.symbols@.len(),
        ensures
            r@ == report_spec(syms_view(self.symbols@), opts_view(contents@), opts_view(inherited@)),
    {
        let ghost ss = syms_view(self.symbols@);
        let ghost cs = opts_view(contents@);
        let ghost os = opts_view(inherited@);
        if self.symbols.len() == 0 {
            return String::new();
        }
        let root = &self.symbols[0];
        let mut r = String::from_str("# ");
        let rv = chars_of(root.symbol.as_str());
        let mut dot: Vec<char> = Vec::new();
        dot.push('.');
        assert(dot@ =~= seq!['.']);
        let cname = match find_exec(&rv, &dot) {
            Some(i) => string_of_range(&rv, 0, i),
            None => root.symbol.clone(),
        };
        push_str(&mut r, cname.as_str());
        push_str(&mut r, " - ");
        let rn = display_exec(root.symbol.as_str(), root.node_type.as_str());
        push_str(&mut r, rn.as_str());
        push_str(&mut r, " Source Code\n\n");
        assert(ss[0] == sym_view(*root));
        assert(cs[0] == match contents@[0] { Some(s) => Some(s@), None => None });
        assert(os[0] == match inherited@[0] { Some(s) => Some(s@), None => None });
        match &contents[0] {
            Some(c) => {
                let b = located_block(c.as_str(), root, &inherited[0], false);
                push_str(&mut r, b.as_str());
            },
            None => {
                push_str(&mut r, "Source path: `");
                push_str(&mut r, root.file.as_str());
                push_str(&mut r, "`\n\n```solidity\n// unable to read source\n```\n");
            },
        }
        assert(r@ =~= root_section(ss[0], cs[0], os[0]));
        let ghost rest = ss.drop_first();
        let mut keys: Vec<Vec<u128>> = Vec::new();
        let mut i: usize = 1;
        while i < self.symbols.len()
            invariant
                ss == syms_view(self.symbols@),
                rest == ss.drop_first(),
                1 <= i <= self.symbols@.len(),
                keys@.len() == i - 1,
                forall|j: int| 0 <= j < i - 1 ==> (#[trigger] keys@[j])@ == symbol_keys(rest)[j],
            decreases self.symbols@.len() - i,
        {
            let s = &self.symbols[i];
            let h = heading_exec(s.node_type.as_str());
            let d = display_exec(s.symbol.as_str(), s.node_type.as_str());
            let l = lower_exec(d.as_str());
            let mut k: Vec<u128> = Vec::new();
            push_text_key(&mut k, h.as_str(), false);
            push_text_key(&mut k, l.as_str(), false);
            assert(rest[i - 1] == sym_view(*s));
            assert(k@ =~= symbol_key(rest[i - 1]));
            keys.push(k);
            i = i + 1;
        }
        assert(keys@.map_values(|k: Vec<u128>| k@) =~= symbol_keys(rest));
        let o = key_order(&keys);
        let ghost head = r@;
        let mut k: usize = 0;
        while k < o.len()
            invariant
                ss == syms_view(self.symbols@),
                cs == opts_view(contents@),
                os == opts_view(inherited@),
                self.readable(contents@),
                inherited@.len() == self.symbols@.len(),
                rest == ss.drop_first(),
                ss.len() == self.symbols@.len(),
                self.symbols@.len() > 0,
                is_key_order(symbol_keys(rest), o@),
                k <= o@.len(),
                r@ == head + ref_sections(ss, cs, os, o@, k as int),
            decreases o@.len() - k,
        {
            let j = o[k] + 1;
            assert(o@[k as int] < rest.len());
            let s = &self.symbols[j];
            assert(ss[j as int] == sym_view(*s));
            assert(cs[j as int] == match contents@[j as int] { Some(x) => Some(x@), None => None });
            assert(os[j as int] == match inherited@[j as int] { Some(x) => Some(x@), None => None });
            let mut sec = String::from_str("\n---\n\n## ");
            let h = heading_exec(s.node_type.as_str());
            push_str(&mut sec, h.as_str());
            push_str(&mut sec, ": `");
            let d = display_exec(s.symbol.as_str(), s.node_type.as_str());
            push_str(&mut sec, d.as_str());
            push_str(&mut sec, "`\n\n");
            match &contents[j] {
                Some(c) => {
                    let header = is_contract_type_exec(s.node_type.as_str());
                    let b = located_block(c.as_str(), s, &inherited[j], header);
                    push_str(&mut sec, b.as_str());
                },
                None => {
                    push_str(&mut sec, "Source path: `");
                    push_str(&mut sec, s.file.as_str());
                    push_str(&mut sec, "`\n\n```solidity\n// unable to read\n```\n");
                },
            }
            assert(sec@ =~= ref_section(ss[j as int], cs[j as int], os[j as int]));
            push_str(&mut r, sec.as_str());
            assert(r@ =~= head + ref_sections(ss, cs, os, o@, k + 1));
            k = k + 1;
        }
        r
    }
}


/// The first of `ls[i..]` that starts, once trimmed, with `/// @inheritdoc`,
/// trimmed.
pub open spec fn inheritdoc_line(ls: Seq<Seq<char>>, i: int) -> Option<Seq<char>>
    decreases ls.len() - i,
{
    if i < 0 || i >= ls.len() {
        None
    } else if starts_with(trim_spec(ls[i]), "/// @inheritdoc"@) {
        Some(trim_spec(ls[i]))
    } else {
        inheritdoc_line(ls, i + 1)
    }
}

/// The text after the last `.` of `s` (all of it without one).
pub open spec fn last_segment(s: Seq<char>) -> Seq<char> {
    match rfind_spec(s, seq!['.']) {
        Some(i) => s.subrange(i + 1, s.len() as int),
        None => s,
    }
}

/// What an `@inheritdoc` natspec asks for: the contract it names (the last
/// segment of a dotted path) and the bare name of the function, taken from
/// the symbol `Contract.name(...)`; nothing without the tag, or when the
/// symbol has no function name.
pub open spec fn inheritdoc_spec(natspec: Seq<char>, symbol: Seq<char>) -> Option<(Seq<char>, Seq<char>)> {
    match inheritdoc_line(crate::text::lines_spec(natspec), 0) {
        None => None,
        Some(l) => {
            let rest = trim_spec(l.subrange("/// @inheritdoc"@.len() as int, l.len() as int));
            match find_spec(symbol, seq!['.']) {
                None => None,
                Some(i) => {
                    let func = before_first(before_first(symbol.subrange(i + 1, symbol.len() as int), seq!['.']), seq!['(']);
                    if func.len() == 0 {
                        None
                    } else {
                        Some((last_segment(rest), func))
                    }
                },
            }
        },
    }
}

/// What an `@inheritdoc` in `natspec` (the natspec of `symbol`) asks for:
/// the contract to look in and the function whose natspec to show.
pub fn inheritdoc_request(natspec: &str, symbol: &str) -> (r: Option<(String, String)>)
    ensures
        match inheritdoc_spec(natspec@, symbol@) {
            Some((c, f)) => r matches Some(p) && p.0@ == c && p.1@ == f,
            None => r is None,
        },
{
    let v = chars_of(natspec);
    let n = v.len();
    let ls = crate::text::lines_of(&v, 0, n);
    assert(v@.subrange(0, n as int) =~= v@);
    let ghost lv = crate::text::ranges_text(v@, ls@);
    let tag = chars_of("/// @inheritdoc");
    let mut found: Option<Vec<char>> = None;
    let mut i: usize = 0;
    while i < ls.len() && found.is_none()
        invariant
            lv == crate::text::ranges_text(v@, ls@),
            crate::text::ranges_ok(v@, ls@),
            lv == crate::text::lines_spec(natspec@),
            tag@ == "/// @inheritdoc"@,
            i <= ls@.len(),
            match found {
                None => inheritdoc_line(lv, 0) == inheritdoc_line(lv, i as int),
                Some(l) => inheritdoc_line(lv, 0) == Some(l@) && starts_with(l@, tag@),
            },
        decreases ls@.len() - i,
    {
        let (a, b) = ls[i];
        assert(ls@[i as int].0 <= ls@[i as int].1 <= v@.len());
        let t = crate::ids::trimmed_range(&v, a, b);
        let tv = chars_of(t.as_str());
        assert(lv[i as int] == v@.subrange(a as int, b as int));
        if tv.len() >= tag.len() && crate::strings::range_eq(&tv, 0, tag.len(), &tag) {
            found = Some(tv);
        }
        i = i + 1;
    }
    let l = match found {
        Some(l) => l,
        None => {
            return None;
        },
    };
    let ln = l.len();
    let rest = crate::ids::trimmed_range(&l, tag.len(), ln);
    let rv = chars_of(rest.as_str());
    let mut dot: Vec<char> = Vec::new();
    dot.push('.');
    assert(dot@ =~= seq!['.']);
    let mut paren: Vec<char> = Vec::new();
    paren.push('(');
    assert(paren@ =~= seq!['(']);
    let iface = match rfind_exec(&rv, &dot) {
        Some(j) => {
            assert(occurs_at(rv@, j as int, dot@));
            let m = rv.len();
            let j1: usize = j + 1;
            string_of_range(&rv, j1, m)
        },
        None => rest,
    };
    let sv = chars_of(symbol);
    match find_exec(&sv, &dot) {
        None => None,
        Some(q) => {
            assert(occurs_at(sv@, q as int, dot@));
            let m = sv.len();
            let q1: usize = q + 1;
            let after = string_of_range(&sv, q1, m);
            let av = chars_of(after.as_str());
            let seg = match find_exec(&av, &dot) {
                Some(e) => string_of_range(&av, 0, e),
                None => after,
            };
            let segv = chars_of(seg.as_str());
            let func = match find_exec(&segv, &paren) {
                Some(e) => string_of_range(&segv, 0, e),
                None => seg,
            };
            if func.as_str().unicode_len() == 0 {
                None
            } else {
                Some((iface, func))
            }
        },
    }
}

/// The natspec of the function declared at byte `offset` of `content`, as
/// an `@inheritdoc` shows it (dedented); nothing when it has none.
pub fn inherited_natspec(content: &str, offset: usize) -> (r: Option<String>)
    requires
        has_boundary(content@, offset as nat),
    ensures
        ({
            let k = char_pos(content@, offset as nat);
            let n = natspec_spec(content@, k);
            if n.len() == 0 {
                r is None
            } else {
                r matches Some(x) && x@ == dedent_spec(n, base_indent_spec(content@, k))
            }
        }),
{
    proof {
        lemma_boundary_in_text(content@, offset as nat);
    }
    let n = extract_natspec(content, offset);
    if n.as_str().unicode_len() == 0 {
        return None;
    }
    let base = base_indent(content, offset);
    Some(dedent(n.as_str(), base))
}

} // verus!
