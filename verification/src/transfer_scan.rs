//! The transfer scans: the walk over function bodies that finds the call
//! sites of token and ETH transfers, each call site reported once, with its
//! file, line and source text, for the files under the source directory.
use vstd::prelude::*;
use crate::ast::{visibility_spec, visibility_str, FunctionKind, Visibility};
use crate::build_info::{first_resolution, BuildInfo};
use crate::call_paths::{under_dir, under_dir_spec};
use crate::scanners::{method_kind_spec, method_to_kind, AssetTransfer, AssetTransferKind, Erc20TransferSink};
use crate::strings::{byte_len, chars_eq, chars_of, decimal, decimal_exec, lemma_byte_len_mono, lemma_byte_len_push, string_of_range, utf8_width_exec};
use crate::text::{
    char_index_of_byte, extract_function_signature, header_spec, is_boundary, lemma_byte_len_prefix_bound, line_at,
    line_at_spec, normalize_expression, normalize_expression_spec,
};

verus! {

// ---------------------------------------------------------------------------
// The model of the AST that the scans read
// ---------------------------------------------------------------------------

/// What a call calls, as far as the scans look at it.
#[derive(Debug)]
pub enum ScanCallee {
    /// `expression.member`.
    Member(String),
    /// `expression{names: ...}`, with the member name when the expression is
    /// a member access.
    Options { names: Vec<String>, member: Option<String> },
    /// Anything else.
    Other,
}

/// An expression, with the parts that the scans walk into.
#[derive(Debug)]
pub enum ScanExpr {
    /// A call at source range `offset..offset + length`; the callee is
    /// classified, not walked.
    Call { offset: usize, length: usize, callee: ScanCallee, arguments: Vec<ScanExpr> },
    /// An assignment; only its right-hand side is walked.
    Assignment(Box<ScanExpr>),
    Binary(Box<ScanExpr>, Box<ScanExpr>),
    Unary(Box<ScanExpr>),
    Conditional(Box<ScanExpr>, Box<ScanExpr>, Box<ScanExpr>),
    MemberAccess(Box<ScanExpr>),
    Tuple(Vec<Option<ScanExpr>>),
    IndexAccess(Box<ScanExpr>, Option<Box<ScanExpr>>),
    IndexRangeAccess(Box<ScanExpr>, Option<Box<ScanExpr>>),
    Other,
}

/// A statement, with the parts that the scans walk into. The bodies of `if`,
/// loops are walked only when they are blocks.
#[derive(Debug)]
pub enum ScanStmt {
    Block(Vec<ScanStmt>),
    Expression(ScanExpr),
    If { condition: ScanExpr, true_body: Box<ScanStmt>, false_body: Option<Box<ScanStmt>> },
    While { condition: ScanExpr, body: Box<ScanStmt> },
    DoWhile { condition: ScanExpr, body: Box<ScanStmt> },
    For { init: Option<ScanExpr>, condition: Option<ScanExpr>, loop_expr: Option<ScanExpr>, body: Box<ScanStmt> },
    Return(Option<ScanExpr>),
    /// A declaration statement with its initial value.
    VariableDeclaration(Option<ScanExpr>),
    /// `revert` with the arguments of its error call.
    Revert(Vec<ScanExpr>),
    Try { external_call: ScanExpr, clauses: Vec<Vec<ScanStmt>> },
    Unchecked(Vec<ScanStmt>),
    Other,
}

/// A function definition: its name, kind, visibility, whether it is
/// payable, its source range and its body.
#[derive(Debug)]
pub struct ScanFunction {
    pub name: String,
    pub kind: FunctionKind,
    pub visibility: Visibility,
    pub payable: bool,
    pub offset: usize,
    pub length: usize,
    pub body: Option<Vec<ScanStmt>>,
}

/// A contract definition and its functions.
#[derive(Debug)]
pub struct ScanContract {
    pub name: String,
    pub functions: Vec<ScanFunction>,
}

/// The AST of one artifact: the source file it belongs to (relative to the
/// project root), that file's text (`None` when it cannot be read) and its
/// contracts.
#[derive(Debug)]
pub struct ScanUnit {
    pub file: String,
    pub content: Option<String>,
    pub contracts: Vec<ScanContract>,
}

/// The kind of an AST's first top-level node, as far as finding its source
/// file goes.
#[derive(Debug, Clone, Copy, PartialEq, Eq, Structural)]
pub enum TopNodeKind {
    ContractDefinition,
    ImportDirective,
    Other,
}

/// The source file of an artifact's AST, relative to the project root. With
/// `use_build_info`, the build-info files decide when the first top-level
/// node is a contract or an import whose source index one of them knows
/// (the first in order that knows it); otherwise the AST's recorded path.
pub open spec fn scan_source_spec(
    first: Option<(TopNodeKind, usize)>,
    infos: Seq<BuildInfo>,
    absolute_path: Seq<char>,
    use_build_info: bool,
) -> Seq<char> {
    match first {
        Some((k, index)) => if use_build_info && k != TopNodeKind::Other {
            match first_resolution(infos, decimal(index as nat), 0) {
                Some(p) => p,
                None => absolute_path,
            }
        } else {
            absolute_path
        },
        None => absolute_path,
    }
}

/// The source file of an artifact's AST (see [`scan_source_spec`]).
pub fn scan_source_path(
    first: Option<(TopNodeKind, usize)>,
    infos: &[BuildInfo],
    absolute_path: &str,
    use_build_info: bool,
) -> (r: String)
    ensures
        r@ == scan_source_spec(first, infos@, absolute_path@, use_build_info),
{
    match first {
        Some((k, index)) => {
            if use_build_info && k != TopNodeKind::Other {
                let id = decimal_exec(index);
                match BuildInfo::resolve_source_id(infos, id.as_str()) {
                    Some(p) => p.clone(),
                    None => String::from_str(absolute_path),
                }
            } else {
                String::from_str(absolute_path)
            }
        },
        None => String::from_str(absolute_path),
    }
}

/// A call site: its source range and the transfer kind it stands for.
pub type Site = (usize, usize, AssetTransferKind);

// ---------------------------------------------------------------------------
// The call sites of a body, in walk order
// ---------------------------------------------------------------------------

/// Whether `names` holds `value`.
pub open spec fn has_value_name(names: Seq<String>) -> bool {
    exists|i: int| 0 <= i < names.len() && (#[trigger] names[i])@ == "value"@
}

/// The site that a call contributes: with `asset`, any transfer method
/// (`transfer`, `safeTransfer`, `transferFrom`, `safeTransferFrom`, `send`)
/// and `call{value: ...}`; without, the ERC20 `transfer` and `safeTransfer`.
pub open spec fn callee_sites(off: usize, len: usize, c: ScanCallee, n_args: nat, asset: bool) -> Seq<Site> {
    match c {
        ScanCallee::Member(m) => if asset {
            match method_kind_spec(m@, n_args) {
                Some(k) => seq![(off, len, k)],
                None => Seq::empty(),
            }
        } else if m@ == "transfer"@ || m@ == "safeTransfer"@ {
            seq![(off, len, AssetTransferKind::Erc20Transfer)]
        } else {
            Seq::empty()
        },
        ScanCallee::Options { names, member } => if asset && has_value_name(names@) && (member matches Some(m) && m@ == "call"@) {
            seq![(off, len, AssetTransferKind::EthCall)]
        } else {
            Seq::empty()
        },
        ScanCallee::Other => Seq::empty(),
    }
}

/// The sites of an expression: a call's own site before those of its
/// arguments.
pub open spec fn expr_sites(e: ScanExpr, asset: bool) -> Seq<Site>
    decreases e,
{
    match e {
        ScanExpr::Call { offset, length, callee, arguments } =>
            callee_sites(offset, length, callee, arguments@.len(), asset) + exprs_sites(arguments@, asset),
        ScanExpr::Assignment(r) => expr_sites(*r, asset),
        ScanExpr::Binary(l, r) => expr_sites(*l, asset) + expr_sites(*r, asset),
        ScanExpr::Unary(x) => expr_sites(*x, asset),
        ScanExpr::Conditional(a, b, c) => expr_sites(*a, asset) + expr_sites(*b, asset) + expr_sites(*c, asset),
        ScanExpr::MemberAccess(x) => expr_sites(*x, asset),
        ScanExpr::Tuple(cs) => opt_exprs_sites(cs@, asset),
        ScanExpr::IndexAccess(b, i) => expr_sites(*b, asset) + match i {
            Some(x) => expr_sites(*x, asset),
            None => Seq::empty(),
        },
        ScanExpr::IndexRangeAccess(b, s) => expr_sites(*b, asset) + match s {
            Some(x) => expr_sites(*x, asset),
            None => Seq::empty(),
        },
        ScanExpr::Other => Seq::empty(),
    }
}

pub open spec fn exprs_sites(es: Seq<ScanExpr>, asset: bool) -> Seq<Site>
    decreases es,
{
    if es.len() == 0 {
        Seq::empty()
    } else {
        expr_sites(es[0], asset) + exprs_sites(es.drop_first(), asset)
    }
}

pub open spec fn opt_exprs_sites(es: Seq<Option<ScanExpr>>, asset: bool) -> Seq<Site>
    decreases es,
{
    if es.len() == 0 {
        Seq::empty()
    } else {
        let head = match es[0] {
            Some(x) => expr_sites(x, asset),
            None => Seq::empty(),
        };
        head + opt_exprs_sites(es.drop_first(), asset)
    }
}

pub open spec fn opt_expr_sites(e: Option<ScanExpr>, asset: bool) -> Seq<Site> {
    match e {
        Some(x) => expr_sites(x, asset),
        None => Seq::empty(),
    }
}

/// The sites of a statement.
pub open spec fn stmt_sites(s: ScanStmt, asset: bool) -> Seq<Site>
    decreases s,
{
    match s {
        ScanStmt::Block(ss) => stmts_sites(ss@, asset),
        ScanStmt::Expression(e) => expr_sites(e, asset),
        ScanStmt::If { condition, true_body, false_body } => expr_sites(condition, asset) + body_sites(*true_body, asset)
            + match false_body {
            Some(b) => body_sites(*b, asset),
            None => Seq::empty(),
        },
        ScanStmt::While { condition, body } => expr_sites(condition, asset) + body_sites(*body, asset),
        ScanStmt::DoWhile { condition, body } => expr_sites(condition, asset) + body_sites(*body, asset),
        ScanStmt::For { init, condition, loop_expr, body } => opt_expr_sites(init, asset) + opt_expr_sites(condition, asset)
            + opt_expr_sites(loop_expr, asset) + body_sites(*body, asset),
        ScanStmt::Return(r) => opt_expr_sites(r, asset),
        ScanStmt::VariableDeclaration(v) => opt_expr_sites(v, asset),
        ScanStmt::Revert(args) => exprs_sites(args@, asset),
        ScanStmt::Try { external_call, clauses } => expr_sites(external_call, asset) + blocks_sites(clauses@, asset),
        ScanStmt::Unchecked(ss) => stmts_sites(ss@, asset),
        ScanStmt::Other => Seq::empty(),
    }
}

/// The sites of a loop or branch body: those of a block, none otherwise.
pub open spec fn body_sites(s: ScanStmt, asset: bool) -> Seq<Site>
    decreases s,
{
    match s {
        ScanStmt::Block(ss) => stmts_sites(ss@, asset),
        _ => Seq::empty(),
    }
}

pub open spec fn stmts_sites(ss: Seq<ScanStmt>, asset: bool) -> Seq<Site>
    decreases ss,
{
    if ss.len() == 0 {
        Seq::empty()
    } else {
        stmt_sites(ss[0], asset) + stmts_sites(ss.drop_first(), asset)
    }
}

pub open spec fn blocks_sites(bs: Seq<Vec<ScanStmt>>, asset: bool) -> Seq<Site>
    decreases bs,
{
    if bs.len() == 0 {
        Seq::empty()
    } else {
        stmts_sites(bs[0]@, asset) + blocks_sites(bs.drop_first(), asset)
    }
}

/// A member call's own site, before its arguments' sites: in the ERC20 scan
/// every call of a member named `transfer` or `safeTransfer` is a site, and
/// a call of any other member adds none of its own; in the asset scan a
/// member call is a site exactly when its name is a transfer method, with the
/// kind that method names (`safeTransferFrom`, `transferFrom`, `safeTransfer`,
/// `send` whatever the arguments; `transfer` by its argument count).
pub proof fn lemma_member_call_sites(off: usize, len: usize, m: String, args: Vec<ScanExpr>)
    ensures
        (m@ == "transfer"@ || m@ == "safeTransfer"@) ==> expr_sites(
            ScanExpr::Call { offset: off, length: len, callee: ScanCallee::Member(m), arguments: args },
            false,
        ) == seq![(off, len, AssetTransferKind::Erc20Transfer)] + exprs_sites(args@, false),
        !(m@ == "transfer"@ || m@ == "safeTransfer"@) ==> expr_sites(
            ScanExpr::Call { offset: off, length: len, callee: ScanCallee::Member(m), arguments: args },
            false,
        ) == exprs_sites(args@, false),
        m@ == "safeTransferFrom"@ ==> expr_sites(
            ScanExpr::Call { offset: off, length: len, callee: ScanCallee::Member(m), arguments: args },
            true,
        ) == seq![(off, len, AssetTransferKind::Erc20SafeTransferFrom)] + exprs_sites(args@, true),
        m@ == "transferFrom"@ ==> expr_sites(
            ScanExpr::Call { offset: off, length: len, callee: ScanCallee::Member(m), arguments: args },
            true,
        ) == seq![(off, len, AssetTransferKind::Erc20TransferFrom)] + exprs_sites(args@, true),
        m@ == "safeTransfer"@ ==> expr_sites(
            ScanExpr::Call { offset: off, length: len, callee: ScanCallee::Member(m), arguments: args },
            true,
        ) == seq![(off, len, AssetTransferKind::Erc20SafeTransfer)] + exprs_sites(args@, true),
        m@ == "send"@ ==> expr_sites(
            ScanExpr::Call { offset: off, length: len, callee: ScanCallee::Member(m), arguments: args },
            true,
        ) == seq![(off, len, AssetTransferKind::EthSend)] + exprs_sites(args@, true),
        m@ == "transfer"@ ==> expr_sites(
            ScanExpr::Call { offset: off, length: len, callee: ScanCallee::Member(m), arguments: args },
            true,
        ) == seq![(off, len, if args@.len() == 1 { AssetTransferKind::EthTransfer } else { AssetTransferKind::Erc20Transfer })]
            + exprs_sites(args@, true),
{
    crate::scanners::lemma_transfer_method_kinds(m@, args@.len());
}

fn text_is(s: &String, t: &str) -> (b: bool)
    ensures
        b == (s@ == t@),
{
    chars_eq(&chars_of(s.as_str()), &chars_of(t))
}

fn names_have_value(names: &Vec<String>) -> (b: bool)
    ensures
        b == has_value_name(names@),
{
    let mut i: usize = 0;
    while i < names.len()
        invariant
            i <= names@.len(),
            forall|j: int| 0 <= j < i ==> (#[trigger] names@[j])@ != "value"@,
        decreases names@.len() - i,
    {
        if text_is(&names[i], "value") {
            return true;
        }
        i = i + 1;
    }
    false
}

fn callee_collect(off: usize, len: usize, c: &ScanCallee, n_args: usize, asset: bool, out: &mut Vec<Site>)
    ensures
        final(out)@ == old(out)@ + callee_sites(off, len, *c, n_args as nat, asset),
{
    match c {
        ScanCallee::Member(m) => {
            if asset {
                match method_to_kind(m.as_str(), n_args) {
                    Some(k) => out.push((off, len, k)),
                    None => {},
                }
            } else if text_is(m, "transfer") || text_is(m, "safeTransfer") {
                out.push((off, len, AssetTransferKind::Erc20Transfer));
            }
        },
        ScanCallee::Options { names, member } => {
            if asset && names_have_value(names) {
                match member {
                    Some(m) => {
                        if text_is(m, "call") {
                            out.push((off, len, AssetTransferKind::EthCall));
                        }
                    },
                    None => {},
                }
            }
        },
        ScanCallee::Other => {},
    }
    assert(final(out)@ =~= old(out)@ + callee_sites(off, len, *c, n_args as nat, asset));
}

fn expr_collect(e: &ScanExpr, asset: bool, out: &mut Vec<Site>)
    ensures
        final(out)@ == old(out)@ + expr_sites(*e, asset),
    decreases e, 2int,
{
    let ghost start = out@;
    match e {
        ScanExpr::Call { offset, length, callee, arguments } => {
            callee_collect(*offset, *length, callee, arguments.len(), asset, out);
            exprs_collect(arguments, asset, out);
        },
        ScanExpr::Assignment(r) => expr_collect(r, asset, out),
        ScanExpr::Binary(l, r) => {
            expr_collect(l, asset, out);
            expr_collect(r, asset, out);
        },
        ScanExpr::Unary(x) => expr_collect(x, asset, out),
        ScanExpr::Conditional(a, b, c) => {
            expr_collect(a, asset, out);
            expr_collect(b, asset, out);
            expr_collect(c, asset, out);
        },
        ScanExpr::MemberAccess(x) => expr_collect(x, asset, out),
        ScanExpr::Tuple(cs) => opt_exprs_collect(cs, asset, out),
        ScanExpr::IndexAccess(b, i) => {
            expr_collect(b, asset, out);
            match i {
                Some(x) => expr_collect(x, asset, out),
                None => {},
            }
        },
        ScanExpr::IndexRangeAccess(b, s) => {
            expr_collect(b, asset, out);
            match s {
                Some(x) => expr_collect(x, asset, out),
                None => {},
            }
        },
        ScanExpr::Other => {},
    }
    assert(out@ =~= start + expr_sites(*e, asset));
}

fn exprs_collect(es: &Vec<ScanExpr>, asset: bool, out: &mut Vec<Site>)
    ensures
        final(out)@ == old(out)@ + exprs_sites(es@, asset),
    decreases es, 0int,
{
    let ghost start = out@;
    let mut i: usize = 0;
    assert(es@.subrange(0, es@.len() as int) =~= es@);
    while i < es.len()
        invariant
            i <= es@.len(),
            start + exprs_sites(es@, asset) == out@ + exprs_sites(es@.subrange(i as int, es@.len() as int), asset),
        decreases es@.len() - i,
    {
        assert(decreases_to!(es => es@[i as int]));
        let ghost rest = es@.subrange(i as int, es@.len() as int);
        assert(rest[0] == es@[i as int]);
        assert(rest.drop_first() =~= es@.subrange(i + 1, es@.len() as int));
        let ghost before = out@;
        expr_collect(&es[i], asset, out);
        assert(before + exprs_sites(rest, asset) =~= out@ + exprs_sites(rest.drop_first(), asset));
        i = i + 1;
    }
    assert(es@.subrange(i as int, es@.len() as int) =~= Seq::<ScanExpr>::empty());
    assert(out@ =~= start + exprs_sites(es@, asset));
}

fn opt_exprs_collect(es: &Vec<Option<ScanExpr>>, asset: bool, out: &mut Vec<Site>)
    ensures
        final(out)@ == old(out)@ + opt_exprs_sites(es@, asset),
    decreases es, 0int,
{
    let ghost start = out@;
    let mut i: usize = 0;
    assert(es@.subrange(0, es@.len() as int) =~= es@);
    while i < es.len()
        invariant
            i <= es@.len(),
            start + opt_exprs_sites(es@, asset) == out@ + opt_exprs_sites(es@.subrange(i as int, es@.len() as int), asset),
        decreases es@.len() - i,
    {
        assert(decreases_to!(es => es@[i as int]));
        let ghost rest = es@.subrange(i as int, es@.len() as int);
        assert(rest[0] == es@[i as int]);
        assert(rest.drop_first() =~= es@.subrange(i + 1, es@.len() as int));
        let ghost before = out@;
        match &es[i] {
            Some(x) => {
                assert(decreases_to!(es@[i as int] => x));
                expr_collect(x, asset, out);
            },
            None => {},
        }
        assert(before + opt_exprs_sites(rest, asset) =~= out@ + opt_exprs_sites(rest.drop_first(), asset));
        i = i + 1;
    }
    assert(es@.subrange(i as int, es@.len() as int) =~= Seq::<Option<ScanExpr>>::empty());
    assert(out@ =~= start + opt_exprs_sites(es@, asset));
}

fn opt_expr_collect(e: &Option<ScanExpr>, asset: bool, out: &mut Vec<Site>)
    ensures
        final(out)@ == old(out)@ + opt_expr_sites(*e, asset),
    decreases e, 3int,
{
    match e {
        Some(x) => expr_collect(x, asset, out),
        None => {
            assert(out@ =~= out@ + Seq::<Site>::empty());
        },
    }
}

fn stmt_collect(s: &ScanStmt, asset: bool, out: &mut Vec<Site>)
    ensures
        final(out)@ == old(out)@ + stmt_sites(*s, asset),
    decreases s, 2int,
{
    let ghost start = out@;
    match s {
        ScanStmt::Block(ss) => stmts_collect(ss, asset, out),
        ScanStmt::Expression(e) => expr_collect(e, asset, out),
        ScanStmt::If { condition, true_body, false_body } => {
            expr_collect(condition, asset, out);
            body_collect(true_body, asset, out);
            match false_body {
                Some(b) => body_collect(b, asset, out),
                None => {},
            }
        },
        ScanStmt::While { condition, body } => {
            expr_collect(condition, asset, out);
            body_collect(body, asset, out);
        },
        ScanStmt::DoWhile { condition, body } => {
            expr_collect(condition, asset, out);
            body_collect(body, asset, out);
        },
        ScanStmt::For { init, condition, loop_expr, body } => {
            opt_expr_collect(init, asset, out);
            opt_expr_collect(condition, asset, out);
            opt_expr_collect(loop_expr, asset, out);
            body_collect(body, asset, out);
        },
        ScanStmt::Return(r) => opt_expr_collect(r, asset, out),
        ScanStmt::VariableDeclaration(v) => opt_expr_collect(v, asset, out),
        ScanStmt::Revert(args) => exprs_collect(args, asset, out),
        ScanStmt::Try { external_call, clauses } => {
            expr_collect(external_call, asset, out);
            blocks_collect(clauses, asset, out);
        },
        ScanStmt::Unchecked(ss) => stmts_collect(ss, asset, out),
        ScanStmt::Other => {},
    }
    assert(out@ =~= start + stmt_sites(*s, asset));
}

fn body_collect(s: &ScanStmt, asset: bool, out: &mut Vec<Site>)
    ensures
        final(out)@ == old(out)@ + body_sites(*s, asset),
    decreases s, 1int,
{
    match s {
        ScanStmt::Block(ss) => stmts_collect(ss, asset, out),
        _ => {
            assert(out@ =~= out@ + Seq::<Site>::empty());
        },
    }
}

fn stmts_collect(ss: &Vec<ScanStmt>, asset: bool, out: &mut Vec<Site>)
    ensures
        final(out)@ == old(out)@ + stmts_sites(ss@, asset),
    decreases ss, 0int,
{
    let ghost start = out@;
    let mut i: usize = 0;
    assert(ss@.subrange(0, ss@.len() as int) =~= ss@);
    while i < ss.len()
        invariant
            i <= ss@.len(),
            start + stmts_sites(ss@, asset) == out@ + stmts_sites(ss@.subrange(i as int, ss@.len() as int), asset),
        decreases ss@.len() - i,
    {
        assert(decreases_to!(ss => ss@[i as int]));
        let ghost rest = ss@.subrange(i as int, ss@.len() as int);
        assert(rest[0] == ss@[i as int]);
        assert(rest.drop_first() =~= ss@.subrange(i + 1, ss@.len() as int));
        let ghost before = out@;
        stmt_collect(&ss[i], asset, out);
        assert(before + stmts_sites(rest, asset) =~= out@ + stmts_sites(rest.drop_first(), asset));
        i = i + 1;
    }
    assert(ss@.subrange(i as int, ss@.len() as int) =~= Seq::<ScanStmt>::empty());
    assert(out@ =~= start + stmts_sites(ss@, asset));
}

fn blocks_collect(bs: &Vec<Vec<ScanStmt>>, asset: bool, out: &mut Vec<Site>)
    ensures
        final(out)@ == old(out)@ + blocks_sites(bs@, asset),
    decreases bs, 0int,
{
    let ghost start = out@;
    let mut i: usize = 0;
    assert(bs@.subrange(0, bs@.len() as int) =~= bs@);
    while i < bs.len()
        invariant
            i <= bs@.len(),
            start + blocks_sites(bs@, asset) == out@ + blocks_sites(bs@.subrange(i as int, bs@.len() as int), asset),
        decreases bs@.len() - i,
    {
        assert(decreases_to!(bs => bs@[i as int]));
        let ghost rest = bs@.subrange(i as int, bs@.len() as int);
        assert(rest[0] == bs@[i as int]);
        assert(rest.drop_first() =~= bs@.subrange(i + 1, bs@.len() as int));
        let ghost before = out@;
        stmts_collect(&bs[i], asset, out);
        assert(before + blocks_sites(rest, asset) =~= out@ + blocks_sites(rest.drop_first(), asset));
        i = i + 1;
    }
    assert(bs@.subrange(i as int, bs@.len() as int) =~= Seq::<Vec<ScanStmt>>::empty());
    assert(out@ =~= start + blocks_sites(bs@, asset));
}

// ---------------------------------------------------------------------------
// Findings
// ---------------------------------------------------------------------------

/// A finding in spec form: contract, function, visibility, source text,
/// kind, file and line.
pub struct TransferV {
    pub contract: Seq<char>,
    pub function: Seq<char>,
    pub visibility: Seq<char>,
    pub expression: Seq<char>,
    pub kind: AssetTransferKind,
    pub file: Seq<char>,
    pub line: nat,
}

pub open spec fn transfer_view(t: AssetTransfer) -> TransferV {
    TransferV {
        contract: t.contract_name@,
        function: t.function_name@,
        visibility: t.visibility@,
        expression: t.expression@,
        kind: t.kind,
        file: t.file@,
        line: t.line as nat,
    }
}

pub open spec fn transfers_view(ts: Seq<AssetTransfer>) -> Seq<TransferV> {
    ts.map_values(|t: AssetTransfer| transfer_view(t))
}

/// An ERC20 sink in spec form: contract, function, source text, file, line.
pub open spec fn sink_view(s: Erc20TransferSink) -> (Seq<char>, Seq<char>, Seq<char>, Seq<char>, nat) {
    (s.contract_name@, s.function_name@, s.transfer_expression@, s.file@, s.line as nat)
}

pub open spec fn sinks_view(ss: Seq<Erc20TransferSink>) -> Seq<(Seq<char>, Seq<char>, Seq<char>, Seq<char>, nat)> {
    ss.map_values(|s: Erc20TransferSink| sink_view(s))
}

/// The sink that a finding of the ERC20 scan stands for.
pub open spec fn as_sink(t: TransferV) -> (Seq<char>, Seq<char>, Seq<char>, Seq<char>, nat) {
    (t.contract, t.function, t.expression, t.file, t.line)
}

/// The name a finding gives a function: unnamed `receive` and `fallback`
/// functions go by their kind.
pub open spec fn fn_label(f: ScanFunction) -> Seq<char> {
    if f.name@.len() == 0 {
        match f.kind {
            FunctionKind::Receive => "receive"@,
            FunctionKind::Fallback => "fallback"@,
            _ => f.name@,
        }
    } else {
        f.name@
    }
}

/// An external or public payable function, which can receive ETH.
pub open spec fn payable_entry(f: ScanFunction) -> bool {
    f.payable && (f.visibility matches Visibility::External || f.visibility matches Visibility::Public)
}

/// A step of the scan: a call site (or, with `entry`, a payable function
/// itself) in function `function` of contract `contract` of unit `unit`.
pub struct Event {
    pub unit: int,
    pub contract: int,
    pub function: int,
    pub site: Site,
    pub entry: bool,
}

pub open spec fn site_event(u: int, c: int, j: int, s: Site) -> Event {
    Event { unit: u, contract: c, function: j, site: s, entry: false }
}

/// The steps of one function: its payable entry (asset scan only), then its
/// body's call sites in walk order.
pub open spec fn fn_events(f: ScanFunction, u: int, c: int, j: int, asset: bool) -> Seq<Event> {
    (if asset && payable_entry(f) {
        seq![Event { unit: u, contract: c, function: j, site: (f.offset, f.length, AssetTransferKind::EthReceive), entry: true }]
    } else {
        Seq::empty()
    }) + match f.body {
        Some(b) => stmts_sites(b@, asset).map_values(|s: Site| site_event(u, c, j, s)),
        None => Seq::empty(),
    }
}

pub open spec fn fns_events(fs: Seq<ScanFunction>, u: int, c: int, k: int, asset: bool) -> Seq<Event>
    decreases k,
{
    if k <= 0 || k > fs.len() {
        Seq::empty()
    } else {
        fns_events(fs, u, c, k - 1, asset) + fn_events(fs[k - 1], u, c, k - 1, asset)
    }
}

pub open spec fn contracts_events(cs: Seq<ScanContract>, u: int, k: int, asset: bool) -> Seq<Event>
    decreases k,
{
    if k <= 0 || k > cs.len() {
        Seq::empty()
    } else {
        contracts_events(cs, u, k - 1, asset) + fns_events(cs[k - 1].functions@, u, k - 1, cs[k - 1].functions@.len() as int, asset)
    }
}

pub open spec fn units_events(us: Seq<ScanUnit>, k: int, asset: bool) -> Seq<Event>
    decreases k,
{
    if k <= 0 || k > us.len() {
        Seq::empty()
    } else {
        units_events(us, k - 1, asset) + contracts_events(us[k - 1].contracts@, k - 1, us[k - 1].contracts@.len() as int, asset)
    }
}

/// The char index at which byte `o` starts.
pub open spec fn boundary_of(c: Seq<char>, o: nat) -> int {
    choose|k: int| is_boundary(c, o, k)
}

/// The source text of bytes `off..off + len`, or `None` when they run past
/// the end.
pub open spec fn slice_spec(c: Seq<char>, off: nat, len: nat) -> Option<Seq<char>> {
    if off + len > byte_len(c) {
        None
    } else {
        Some(c.subrange(boundary_of(c, off), boundary_of(c, off + len)))
    }
}

/// The range `off..off + len` starts on a char boundary (or past the end)
/// and, when it lies within the text, ends on one: a range that slicing the
/// text at would panic on is no source range.
pub open spec fn span_ok(c: Seq<char>, off: nat, len: nat) -> bool {
    &&& (off >= byte_len(c) || exists|k: int| #[trigger] is_boundary(c, off, k))
    &&& (off + len <= byte_len(c) ==> exists|k: int| #[trigger] is_boundary(c, off + len, k))
}

/// The finding that a step gives, when the unit's text can be read: a call
/// site within the text gives its text (whitespace collapsed in the asset
/// scan) and line; a payable entry gives its header.
pub open spec fn finding(us: Seq<ScanUnit>, e: Event, asset: bool) -> Option<TransferV> {
    let u = us[e.unit];
    let ct = u.contracts@[e.contract];
    let f = ct.functions@[e.function];
    match u.content {
        None => None,
        Some(c) => {
            let text = slice_spec(c@, e.site.0 as nat, e.site.1 as nat);
            let line = line_at_spec(c@, e.site.0 as nat);
            if e.entry {
                Some(TransferV {
                    contract: ct.name@,
                    function: fn_label(f),
                    visibility: visibility_spec(f.visibility),
                    expression: match text {
                        Some(t) => header_spec(t),
                        None => Seq::empty(),
                    },
                    kind: AssetTransferKind::EthReceive,
                    file: u.file@,
                    line: line,
                })
            } else {
                match text {
                    Some(t) => Some(TransferV {
                        contract: ct.name@,
                        function: if asset { fn_label(f) } else { f.name@ },
                        visibility: visibility_spec(f.visibility),
                        expression: if asset { normalize_expression_spec(t) } else { t },
                        kind: e.site.2,
                        file: u.file@,
                        line: line,
                    }),
                    None => None,
                }
            }
        },
    }
}

/// The key a step is reported under: its unit's file and its source range.
pub open spec fn event_key(us: Seq<ScanUnit>, e: Event) -> (Seq<char>, usize, usize) {
    (us[e.unit].file@, e.site.0, e.site.1)
}

/// Whether a step of `p` has key `k`.
pub open spec fn seen_in(us: Seq<ScanUnit>, p: Seq<Event>, k: (Seq<char>, usize, usize)) -> bool {
    exists|j: int| 0 <= j < p.len() && event_key(us, #[trigger] p[j]) == k
}

/// What the steps `p` report, in order: a step in a file under `dir` whose
/// file and source range no earlier step had gives its finding; any other
/// step gives nothing. (The same source file is read from every artifact
/// that compiled it, so the same call site comes up more than once.)
pub open spec fn reported(us: Seq<ScanUnit>, asset: bool, p: Seq<Event>, dir: Seq<char>) -> Seq<TransferV>
    decreases p.len(),
{
    if p.len() == 0 {
        Seq::empty()
    } else {
        let q = p.drop_last();
        let e = p.last();
        reported(us, asset, q, dir) + if under_dir_spec(us[e.unit].file@, dir) && !seen_in(us, q, event_key(us, e)) {
            match finding(us, e, asset) {
                Some(t) => seq![t],
                None => Seq::empty(),
            }
        } else {
            Seq::empty()
        }
    }
}

/// The asset transfers of a project: in the files under `src_dir`, every
/// transfer-method call, every `call{value: ...}` and every payable external
/// or public function, once per file and source range, in walk order.
pub open spec fn asset_transfers_spec(us: Seq<ScanUnit>, src_dir: Seq<char>) -> Seq<TransferV> {
    reported(us, true, units_events(us, us.len() as int, true), src_dir)
}

/// The ERC20 transfer sinks of a project: in the files under `src_dir`,
/// every `transfer` and `safeTransfer` member call inside a function body,
/// once per file and source range, in walk order, with its source text and
/// line.
pub open spec fn erc20_sinks_spec(us: Seq<ScanUnit>, src_dir: Seq<char>) -> Seq<(Seq<char>, Seq<char>, Seq<char>, Seq<char>, nat)> {
    reported(us, false, units_events(us, us.len() as int, false), src_dir).map_values(|t: TransferV| as_sink(t))
}

/// The source ranges of a function lie on char boundaries of its unit's text.
pub open spec fn fn_spans_ok(c: Seq<char>, f: ScanFunction, asset: bool) -> bool {
    &&& (asset && payable_entry(f) ==> span_ok(c, f.offset as nat, f.length as nat))
    &&& match f.body {
        Some(b) => forall|k: int| 0 <= k < stmts_sites(b@, asset).len()
            ==> span_ok(c, (#[trigger] stmts_sites(b@, asset)[k]).0 as nat, stmts_sites(b@, asset)[k].1 as nat),
        None => true,
    }
}

/// A unit whose text fits the machine and whose source ranges lie on char
/// boundaries.
pub open spec fn unit_ok(u: ScanUnit, asset: bool) -> bool {
    match u.content {
        None => true,
        Some(c) => {
            &&& byte_len(c@) < usize::MAX
            &&& c@.len() < usize::MAX
            &&& forall|ci: int, j: int| 0 <= ci < u.contracts@.len() && 0 <= j < u.contracts@[ci].functions@.len()
                ==> fn_spans_ok(c@, #[trigger] u.contracts@[ci].functions@[j], asset)
        },
    }
}

pub open spec fn units_ok(us: Seq<ScanUnit>, asset: bool) -> bool {
    forall|i: int| 0 <= i < us.len() ==> unit_ok(#[trigger] us[i], asset)
}

/// A scan reports only files under `dir`, and a step whose file and source
/// range an earlier step had adds nothing.
pub proof fn lemma_reported_once(us: Seq<ScanUnit>, asset: bool, p: Seq<Event>, dir: Seq<char>, e: Event)
    ensures
        forall|k: int| 0 <= k < reported(us, asset, p, dir).len() ==> under_dir_spec(#[trigger] reported(us, asset, p, dir)[k].file, dir),
        seen_in(us, p, event_key(us, e)) ==> reported(us, asset, p.push(e), dir) == reported(us, asset, p, dir),
    decreases p.len(),
{
    assert(p.push(e).drop_last() =~= p);
    if p.len() > 0 {
        lemma_reported_once(us, asset, p.drop_last(), dir, e);
        let q = p.drop_last();
        let l = p.last();
        assert forall|k: int| 0 <= k < reported(us, asset, p, dir).len() implies under_dir_spec(#[trigger] reported(us, asset, p, dir)[k].file, dir) by {
            if k >= reported(us, asset, q, dir).len() {
                assert(finding(us, l, asset) matches Some(t) && t.file == us[l.unit].file@);
            }
        }
    }
}

// ---------------------------------------------------------------------------
// The scan
// ---------------------------------------------------------------------------

/// The key state of the scan: the keys marked so far are those of the steps
/// `p`, and the findings are what `p` reports.
pub open spec fn keys_view(v: Seq<(String, usize, usize)>) -> Seq<(Seq<char>, usize, usize)> {
    v.map_values(|x: (String, usize, usize)| (x.0@, x.1, x.2))
}

pub open spec fn scan_state_ok(
    us: Seq<ScanUnit>,
    asset: bool,
    dir: Seq<char>,
    p: Seq<Event>,
    v: Seq<(String, usize, usize)>,
    o: Seq<TransferV>,
) -> bool {
    &&& forall|k: (Seq<char>, usize, usize)| keys_view(v).contains(k) <==> seen_in(us, p, k)
    &&& o == reported(us, asset, p, dir)
}

proof fn lemma_seen_push(us: Seq<ScanUnit>, p: Seq<Event>, e: Event, k: (Seq<char>, usize, usize))
    ensures
        seen_in(us, p.push(e), k) <==> (seen_in(us, p, k) || event_key(us, e) == k),
{
    if seen_in(us, p, k) {
        let j = choose|j: int| 0 <= j < p.len() && event_key(us, #[trigger] p[j]) == k;
        assert(p.push(e)[j] == p[j]);
    }
    if event_key(us, e) == k {
        assert(p.push(e)[p.len() as int] == e);
    }
    if seen_in(us, p.push(e), k) {
        let j = choose|j: int| 0 <= j < p.push(e).len() && event_key(us, #[trigger] p.push(e)[j]) == k;
        if j < p.len() {
            assert(p.push(e)[j] == p[j]);
        }
    }
}

fn byte_len_exec(v: &Vec<char>) -> (n: usize)
    requires
        byte_len(v@) <= usize::MAX,
    ensures
        n == byte_len(v@),
{
    let mut n: usize = 0;
    let mut i: usize = 0;
    while i < v.len()
        invariant
            i <= v@.len(),
            byte_len(v@) <= usize::MAX,
            n == byte_len(v@.take(i as int)),
        decreases v@.len() - i,
    {
        proof {
            assert(v@.take(i + 1) == v@.take(i as int).push(v@[i as int]));
            lemma_byte_len_push(v@.take(i as int), v@[i as int]);
            lemma_byte_len_prefix_bound(v@, i + 1);
        }
        n = n + utf8_width_exec(v[i]);
        i = i + 1;
    }
    assert(v@.take(v@.len() as int) == v@);
    n
}

/// The text of bytes `off..off + len` of `v`.
fn source_slice(v: &Vec<char>, bl: usize, off: usize, len: usize) -> (r: Option<String>)
    requires
        bl == byte_len(v@),
        span_ok(v@, off as nat, len as nat),
    ensures
        match r {
            Some(s) => slice_spec(v@, off as nat, len as nat) == Some(s@),
            None => slice_spec(v@, off as nat, len as nat) is None,
        },
{
    if off > bl || len > bl - off {
        return None;
    }
    let end = off + len;
    assert(v@.take(v@.len() as int) =~= v@);
    assert(off >= byte_len(v@) ==> is_boundary(v@, off as nat, v@.len() as int));
    let (k1, ok1) = char_index_of_byte(v, off);
    let (k2, ok2) = char_index_of_byte(v, end);
    proof {
        assert(is_boundary(v@, off as nat, boundary_of(v@, off as nat)));
        assert(is_boundary(v@, end as nat, boundary_of(v@, end as nat)));
        assert(ok1 && ok2);
        assert(k1 == boundary_of(v@, off as nat));
        assert(k2 == boundary_of(v@, end as nat));
        if k1 > k2 {
            lemma_byte_len_mono(v@, k2 as int, k1 as int);
        }
    }
    Some(string_of_range(v, k1, k2))
}

fn contains_key(vs: &Vec<(String, usize, usize)>, file: &String, off: usize, len: usize) -> (b: bool)
    ensures
        b == keys_view(vs@).contains((file@, off, len)),
{
    let fv = chars_of(file.as_str());
    let mut i: usize = 0;
    while i < vs.len()
        invariant
            i <= vs@.len(),
            fv@ == file@,
            forall|j: int| 0 <= j < i ==> keys_view(vs@)[j] != (file@, off, len),
        decreases vs@.len() - i,
    {
        if vs[i].1 == off && vs[i].2 == len && chars_eq(&chars_of(vs[i].0.as_str()), &fv) {
            assert(keys_view(vs@)[i as int] == (file@, off, len));
            return true;
        }
        i = i + 1;
    }
    false
}

fn label_exec(f: &ScanFunction) -> (r: String)
    ensures
        r@ == fn_label(*f),
{
    if f.name.as_str().unicode_len() == 0 {
        match f.kind {
            FunctionKind::Receive => String::from_str("receive"),
            FunctionKind::Fallback => String::from_str("fallback"),
            _ => f.name.clone(),
        }
    } else {
        f.name.clone()
    }
}

/// The chars and byte length of a unit's text, when there is one.
pub open spec fn text_cache_ok(content: Option<String>, cv: Option<(Vec<char>, usize)>) -> bool {
    match (content, cv) {
        (None, None) => true,
        (Some(c), Some(x)) => x.0@ == c@ && x.1 == byte_len(c@) && c@.len() < usize::MAX,
        _ => false,
    }
}

fn push_finding(
    us: &Vec<ScanUnit>,
    i: usize,
    ci: usize,
    j: usize,
    site: Site,
    entry: bool,
    asset: bool,
    cv: &Option<(Vec<char>, usize)>,
    out: &mut Vec<AssetTransfer>,
)
    requires
        i < us@.len(),
        ci < us@[i as int].contracts@.len(),
        j < us@[i as int].contracts@[ci as int].functions@.len(),
        text_cache_ok(us@[i as int].content, *cv),
        match us@[i as int].content {
            Some(c) => span_ok(c@, site.0 as nat, site.1 as nat),
            None => true,
        },
    ensures
        transfers_view(final(out)@) == transfers_view(old(out)@) + match finding(
            us@,
            Event { unit: i as int, contract: ci as int, function: j as int, site: site, entry: entry },
            asset,
        ) {
            Some(t) => seq![t],
            None => Seq::empty(),
        },
{
    let ghost e = Event { unit: i as int, contract: ci as int, function: j as int, site: site, entry: entry };
    let ghost out0 = out@;
    let u = &us[i];
    let ct = &u.contracts[ci];
    let f = &ct.functions[j];
    match (&u.content, cv) {
        (Some(content), Some(x)) => {
            let text = source_slice(&x.0, x.1, site.0, site.1);
            let line = line_at(content.as_str(), site.0);
            if entry {
                let expression = match &text {
                    Some(t) => extract_function_signature(t.as_str()),
                    None => String::new(),
                };
                out.push(AssetTransfer {
                    contract_name: ct.name.clone(),
                    function_name: label_exec(f),
                    visibility: visibility_str(f.visibility),
                    expression: expression,
                    kind: AssetTransferKind::EthReceive,
                    file: u.file.clone(),
                    line: line,
                });
            } else {
                match &text {
                    Some(t) => {
                        let function_name = if asset { label_exec(f) } else { f.name.clone() };
                        let expression = if asset { normalize_expression(t.as_str()) } else { t.clone() };
                        out.push(AssetTransfer {
                            contract_name: ct.name.clone(),
                            function_name: function_name,
                            visibility: visibility_str(f.visibility),
                            expression: expression,
                            kind: site.2,
                            file: u.file.clone(),
                            line: line,
                        });
                    },
                    None => {},
                }
            }
        },
        _ => {},
    }
    proof {
        assert(transfers_view(out@) =~= transfers_view(out0) + match finding(us@, e, asset) {
            Some(t) => seq![t],
            None => Seq::empty(),
        });
    }
}

fn process(
    us: &Vec<ScanUnit>,
    i: usize,
    ci: usize,
    j: usize,
    site: Site,
    entry: bool,
    asset: bool,
    dir: &str,
    cv: &Option<(Vec<char>, usize)>,
    visited: &mut Vec<(String, usize, usize)>,
    out: &mut Vec<AssetTransfer>,
)
    requires
        i < us@.len(),
        ci < us@[i as int].contracts@.len(),
        j < us@[i as int].contracts@[ci as int].functions@.len(),
        text_cache_ok(us@[i as int].content, *cv),
        match us@[i as int].content {
            Some(c) => span_ok(c@, site.0 as nat, site.1 as nat),
            None => true,
        },
    ensures
        forall|p: Seq<Event>| scan_state_ok(us@, asset, dir@, p, old(visited)@, transfers_view(old(out)@))
            ==> #[trigger] scan_state_ok(
            us@,
            asset,
            dir@,
            p.push(Event { unit: i as int, contract: ci as int, function: j as int, site: site, entry: entry }),
            final(visited)@,
            transfers_view(final(out)@),
        ),
{
    let ghost e = Event { unit: i as int, contract: ci as int, function: j as int, site: site, entry: entry };
    let ghost v0 = visited@;
    let ghost o0 = transfers_view(out@);
    let ghost key = event_key(us@, e);
    let u = &us[i];
    if contains_key(visited, &u.file, site.0, site.1) {
        assert forall|p: Seq<Event>| scan_state_ok(us@, asset, dir@, p, v0, o0) implies #[trigger] scan_state_ok(
            us@, asset, dir@, p.push(e), visited@, transfers_view(out@)) by {
            assert(p.push(e).drop_last() =~= p);
            assert forall|k: (Seq<char>, usize, usize)| keys_view(v0).contains(k) <==> seen_in(us@, p.push(e), k) by {
                lemma_seen_push(us@, p, e, k);
            }
        }
        return;
    }
    let ghost kv0 = keys_view(visited@);
    visited.push((u.file.clone(), site.0, site.1));
    assert(keys_view(visited@) =~= kv0.push(key));
    if under_dir(u.file.as_str(), dir) {
        push_finding(us, i, ci, j, site, entry, asset, cv, out);
    }
    assert forall|p: Seq<Event>| scan_state_ok(us@, asset, dir@, p, v0, o0) implies #[trigger] scan_state_ok(
        us@, asset, dir@, p.push(e), visited@, transfers_view(out@)) by {
        assert(p.push(e).drop_last() =~= p);
        assert(p.push(e).last() == e);
        assert(!seen_in(us@, p, key));
        assert forall|k: (Seq<char>, usize, usize)| keys_view(visited@).contains(k) <==> seen_in(us@, p.push(e), k) by {
            lemma_seen_push(us@, p, e, k);
            if k == key {
                assert(keys_view(visited@)[kv0.len() as int] == key);
            }
            if kv0.contains(k) {
                let x = choose|x: int| 0 <= x < kv0.len() && kv0[x] == k;
                assert(keys_view(visited@)[x] == k);
            }
            if keys_view(visited@).contains(k) && k != key {
                let x = choose|x: int| 0 <= x < keys_view(visited@).len() && keys_view(visited@)[x] == k;
                assert(kv0[x] == k);
            }
        }
    }
}

fn scan_function(
    us: &Vec<ScanUnit>,
    i: usize,
    ci: usize,
    j: usize,
    asset: bool,
    dir: &str,
    cv: &Option<(Vec<char>, usize)>,
    visited: &mut Vec<(String, usize, usize)>,
    out: &mut Vec<AssetTransfer>,
)
    requires
        i < us@.len(),
        ci < us@[i as int].contracts@.len(),
        j < us@[i as int].contracts@[ci as int].functions@.len(),
        text_cache_ok(us@[i as int].content, *cv),
        unit_ok(us@[i as int], asset),
    ensures
        forall|p: Seq<Event>| scan_state_ok(us@, asset, dir@, p, old(visited)@, transfers_view(old(out)@))
            ==> #[trigger] scan_state_ok(
            us@,
            asset,
            dir@,
            p + fn_events(us@[i as int].contracts@[ci as int].functions@[j as int], i as int, ci as int, j as int, asset),
            final(visited)@,
            transfers_view(final(out)@),
        ),
{
    let ghost v0 = visited@;
    let ghost o0 = transfers_view(out@);
    let f = &us[i].contracts[ci].functions[j];
    let ghost fv = *f;
    proof {
        assert(us@[i as int].contracts@[ci as int].functions@[j as int] == fv);
    }
    let ghost head: Seq<Event> = if asset && payable_entry(fv) {
        seq![Event { unit: i as int, contract: ci as int, function: j as int, site: (fv.offset, fv.length, AssetTransferKind::EthReceive), entry: true }]
    } else {
        Seq::empty()
    };
    let ghost sites: Seq<Site> = match fv.body {
        Some(b) => stmts_sites(b@, asset),
        None => Seq::empty(),
    };
    let ghost mapped = sites.map_values(|s: Site| site_event(i as int, ci as int, j as int, s));
    assert(fn_events(fv, i as int, ci as int, j as int, asset) == head + mapped);
    if asset && f.payable && (matches!(f.visibility, Visibility::External) || matches!(f.visibility, Visibility::Public)) {
        process(us, i, ci, j, (f.offset, f.length, AssetTransferKind::EthReceive), true, asset, dir, cv, visited, out);
    }
    let ghost v1 = visited@;
    let ghost o1 = transfers_view(out@);
    assert forall|p: Seq<Event>| scan_state_ok(us@, asset, dir@, p, v0, o0) implies #[trigger] scan_state_ok(us@, asset, dir@, p + head, v1, o1) by {
        if asset && payable_entry(fv) {
            assert(p + head =~= p.push(head[0]));
        } else {
            assert(p + head =~= p);
        }
    }
    match &f.body {
        Some(b) => {
            let mut found: Vec<Site> = Vec::new();
            stmts_collect(b, asset, &mut found);
            assert(found@ =~= sites);
            let mut k: usize = 0;
            while k < found.len()
                invariant
                    i < us@.len(),
                    ci < us@[i as int].contracts@.len(),
                    j < us@[i as int].contracts@[ci as int].functions@.len(),
                    fv == us@[i as int].contracts@[ci as int].functions@[j as int],
                    text_cache_ok(us@[i as int].content, *cv),
                    unit_ok(us@[i as int], asset),
                    found@ == sites,
                    fv.body matches Some(bb) && sites == stmts_sites(bb@, asset),
                    mapped == sites.map_values(|s: Site| site_event(i as int, ci as int, j as int, s)),
                    k <= found@.len(),
                    forall|p: Seq<Event>| scan_state_ok(us@, asset, dir@, p, v0, o0)
                        ==> #[trigger] scan_state_ok(us@, asset, dir@, p + head + mapped.take(k as int), visited@, transfers_view(out@)),
                decreases found@.len() - k,
            {
                proof {
                    match us@[i as int].content {
                        Some(c) => {
                            assert(fn_spans_ok(c@, us@[i as int].contracts@[ci as int].functions@[j as int], asset));
                            assert(span_ok(c@, sites[k as int].0 as nat, sites[k as int].1 as nat));
                        },
                        None => {},
                    }
                }
                let ghost vb = visited@;
                let ghost ob = transfers_view(out@);
                process(us, i, ci, j, found[k], false, asset, dir, cv, visited, out);
                proof {
                    assert forall|p: Seq<Event>| scan_state_ok(us@, asset, dir@, p, v0, o0) implies #[trigger] scan_state_ok(
                        us@, asset, dir@, p + head + mapped.take(k + 1), visited@, transfers_view(out@)) by {
                        assert(scan_state_ok(us@, asset, dir@, p + head + mapped.take(k as int), vb, ob));
                        assert(p + head + mapped.take(k + 1) =~= (p + head + mapped.take(k as int)).push(mapped[k as int]));
                    }
                }
                k = k + 1;
            }
            assert(mapped.take(found@.len() as int) =~= mapped);
        },
        None => {
            assert forall|p: Seq<Event>| scan_state_ok(us@, asset, dir@, p, v0, o0) implies #[trigger] scan_state_ok(
                us@, asset, dir@, p + head + mapped, visited@, transfers_view(out@)) by {
                assert(p + head + mapped =~= p + head);
            }
        },
    }
    assert forall|p: Seq<Event>| scan_state_ok(us@, asset, dir@, p, v0, o0) implies #[trigger] scan_state_ok(
        us@, asset, dir@, p + fn_events(fv, i as int, ci as int, j as int, asset), visited@, transfers_view(out@)) by {
        assert(p + head + mapped =~= p + (head + mapped));
    }
}

fn scan_all(us: &Vec<ScanUnit>, asset: bool, dir: &str) -> (r: Vec<AssetTransfer>)
    requires
        units_ok(us@, asset),
    ensures
        transfers_view(r@) == reported(us@, asset, units_events(us@, us@.len() as int, asset), dir@),
{
    let mut visited: Vec<(String, usize, usize)> = Vec::new();
    let mut out: Vec<AssetTransfer> = Vec::new();
    assert(transfers_view(out@) =~= Seq::<TransferV>::empty());
    assert(keys_view(visited@) =~= Seq::<(Seq<char>, usize, usize)>::empty());
    assert(scan_state_ok(us@, asset, dir@, units_events(us@, 0, asset), visited@, transfers_view(out@)));
    let mut i: usize = 0;
    while i < us.len()
        invariant
            i <= us@.len(),
            units_ok(us@, asset),
            scan_state_ok(us@, asset, dir@, units_events(us@, i as int, asset), visited@, transfers_view(out@)),
        decreases us@.len() - i,
    {
        assert(unit_ok(us@[i as int], asset));
        let cv: Option<(Vec<char>, usize)> = match &us[i].content {
            Some(c) => {
                let v = chars_of(c.as_str());
                let bl = byte_len_exec(&v);
                Some((v, bl))
            },
            None => None,
        };
        let ghost pu = units_events(us@, i as int, asset);
        let cs = &us[i].contracts;
        let mut ci: usize = 0;
        assert(pu + contracts_events(cs@, i as int, 0, asset) =~= pu);
        while ci < cs.len()
            invariant
                i < us@.len(),
                cs == &us@[i as int].contracts,
                ci <= cs@.len(),
                units_ok(us@, asset),
                unit_ok(us@[i as int], asset),
                text_cache_ok(us@[i as int].content, cv),
                pu == units_events(us@, i as int, asset),
                scan_state_ok(us@, asset, dir@, pu + contracts_events(cs@, i as int, ci as int, asset), visited@, transfers_view(out@)),
            decreases cs@.len() - ci,
        {
            let ghost pc = pu + contracts_events(cs@, i as int, ci as int, asset);
            let fs = &cs[ci].functions;
            let mut j: usize = 0;
            assert(pc + fns_events(fs@, i as int, ci as int, 0, asset) =~= pc);
            while j < fs.len()
                invariant
                    i < us@.len(),
                    cs == &us@[i as int].contracts,
                    ci < cs@.len(),
                    fs == &cs@[ci as int].functions,
                    j <= fs@.len(),
                    unit_ok(us@[i as int], asset),
                    text_cache_ok(us@[i as int].content, cv),
                    scan_state_ok(us@, asset, dir@, pc + fns_events(fs@, i as int, ci as int, j as int, asset), visited@, transfers_view(out@)),
                decreases fs@.len() - j,
            {
                let ghost pf = pc + fns_events(fs@, i as int, ci as int, j as int, asset);
                scan_function(us, i, ci, j, asset, dir, &cv, &mut visited, &mut out);
                proof {
                    assert(scan_state_ok(us@, asset, dir@, pf + fn_events(fs@[j as int], i as int, ci as int, j as int, asset), visited@, transfers_view(out@)));
                    assert(pf + fn_events(fs@[j as int], i as int, ci as int, j as int, asset)
                        =~= pc + fns_events(fs@, i as int, ci as int, j + 1, asset));
                }
                j = j + 1;
            }
            assert(pc + fns_events(fs@, i as int, ci as int, fs@.len() as int, asset) =~= pu + contracts_events(cs@, i as int, ci + 1, asset));
            ci = ci + 1;
        }
        assert(pu + contracts_events(cs@, i as int, cs@.len() as int, asset) =~= units_events(us@, i + 1, asset));
        i = i + 1;
    }
    out
}

/// Scan the units of a project for asset transfers: in the files under
/// `src_dir`, transfer-method calls, `call{value: ...}` calls and payable
/// external or public functions, once per file and source range.
pub fn find_asset_transfers(units: &Vec<ScanUnit>, src_dir: &str) -> (r: Vec<AssetTransfer>)
    requires
        units_ok(units@, true),
    ensures
        transfers_view(r@) == asset_transfers_spec(units@, src_dir@),
{
    scan_all(units, true, src_dir)
}

/// Scan the units of a project for ERC20 transfer sinks: in the files under
/// `src_dir`, `transfer` and `safeTransfer` calls inside function bodies,
/// once per file and source range, with their source text and line.
pub fn find_erc20_sinks(units: &Vec<ScanUnit>, src_dir: &str) -> (r: Vec<Erc20TransferSink>)
    requires
        units_ok(units@, false),
    ensures
        sinks_view(r@) == erc20_sinks_spec(units@, src_dir@),
{
    let kept = scan_all(units, false, src_dir);
    let ghost kv = transfers_view(kept@);
    let mut out: Vec<Erc20TransferSink> = Vec::new();
    let mut i: usize = 0;
    while i < kept.len()
        invariant
            i <= kept@.len(),
            kv == transfers_view(kept@),
            sinks_view(out@) == kv.take(i as int).map_values(|t: TransferV| as_sink(t)),
        decreases kept@.len() - i,
    {
        let t = &kept[i];
        let s = Erc20TransferSink {
            contract_name: t.contract_name.clone(),
            function_name: t.function_name.clone(),
            transfer_expression: t.expression.clone(),
            file: t.file.clone(),
            line: t.line,
        };
        let ghost before = sinks_view(out@);
        out.push(s);
        assert(kv[i as int] == transfer_view(kept@[i as int]));
        assert(sinks_view(out@) =~= before.push(sink_view(s)));
        assert(kv.take(i + 1) =~= kv.take(i as int).push(kv[i as int]));
        assert(sinks_view(out@) =~= kv.take(i + 1).map_values(|t: TransferV| as_sink(t)));
        i = i + 1;
    }
    assert(kv.take(kept@.len() as int) =~= kv);
    out
}

} // verus!
