//! Asset transfer and ERC20 transfer sink findings: classification of the
//! transfer methods and the Markdown reports listing the call sites sorted
//! by location.
use vstd::prelude::*;
use crate::order::{is_key_order, key_order, key_sorted_order, num_key, push_num_key, push_text_key, text_key};
use crate::strings::{chars_of, decimal, decimal_exec, push_char, push_str};

verus! {

/// The kind of asset transfer detected.
#[derive(Debug, Clone, Copy, PartialEq, Eq, Structural)]
pub enum AssetTransferKind {
    /// ERC20 `transfer`
    Erc20Transfer,
    /// ERC20 `safeTransfer`
    Erc20SafeTransfer,
    /// ERC20 `transferFrom`
    Erc20TransferFrom,
    /// ERC20 `safeTransferFrom`
    Erc20SafeTransferFrom,
    /// ETH `send`
    EthSend,
    /// ETH low-level `call{value}`
    EthCall,
    /// ETH `transfer`
    EthTransfer,
    /// ETH `receive` function
    EthReceive,
}

/// Text of a transfer kind.
pub open spec fn kind_text(k: AssetTransferKind) -> Seq<char> {
    match k {
        AssetTransferKind::Erc20Transfer => "Transfer ERC20"@,
        AssetTransferKind::Erc20SafeTransfer => "Safe Transfer ERC20"@,
        AssetTransferKind::Erc20TransferFrom => "Transfer From ERC20"@,
        AssetTransferKind::Erc20SafeTransferFrom => "Safe Transfer From ERC20"@,
        AssetTransferKind::EthSend => "Send ETH"@,
        AssetTransferKind::EthCall => "Call ETH"@,
        AssetTransferKind::EthTransfer => "Transfer ETH"@,
        AssetTransferKind::EthReceive => "Receive ETH"@,
    }
}

impl AssetTransferKind {
    /// The kind as shown in reports.
    pub fn to_string(&self) -> (s: String)
        ensures
            s@ == kind_text(*self),
    {
        match self {
            AssetTransferKind::Erc20Transfer => String::from_str("Transfer ERC20"),
            AssetTransferKind::Erc20SafeTransfer => String::from_str("Safe Transfer ERC20"),
            AssetTransferKind::Erc20TransferFrom => String::from_str("Transfer From ERC20"),
            AssetTransferKind::Erc20SafeTransferFrom => String::from_str("Safe Transfer From ERC20"),
            AssetTransferKind::EthSend => String::from_str("Send ETH"),
            AssetTransferKind::EthCall => String::from_str("Call ETH"),
            AssetTransferKind::EthTransfer => String::from_str("Transfer ETH"),
            AssetTransferKind::EthReceive => String::from_str("Receive ETH"),
        }
    }
}

/// Whether a member name is one of the transfer methods.
pub open spec fn is_transfer_method_spec(m: Seq<char>) -> bool {
    m == "transfer"@ || m == "safeTransfer"@ || m == "transferFrom"@ || m == "safeTransferFrom"@ || m == "send"@
}

/// The transfer kind of a method called with `n_args` arguments: `transfer`
/// with one argument sends ETH, with more moves ERC20 tokens.
pub open spec fn method_kind_spec(m: Seq<char>, n_args: nat) -> Option<AssetTransferKind> {
    if m == "transfer"@ {
        if n_args == 1 { Some(AssetTransferKind::EthTransfer) } else { Some(AssetTransferKind::Erc20Transfer) }
    } else if m == "safeTransfer"@ {
        Some(AssetTransferKind::Erc20SafeTransfer)
    } else if m == "transferFrom"@ {
        Some(AssetTransferKind::Erc20TransferFrom)
    } else if m == "safeTransferFrom"@ {
        Some(AssetTransferKind::Erc20SafeTransferFrom)
    } else if m == "send"@ {
        Some(AssetTransferKind::EthSend)
    } else {
        None
    }
}

/// The kind each transfer method is classified as, whatever the number of
/// arguments (but for `transfer`, where one argument means ETH): any other
/// name is no transfer.
pub proof fn lemma_transfer_method_kinds(m: Seq<char>, n_args: nat)
    ensures
        m == "safeTransferFrom"@ ==> method_kind_spec(m, n_args) == Some(AssetTransferKind::Erc20SafeTransferFrom),
        m == "transferFrom"@ ==> method_kind_spec(m, n_args) == Some(AssetTransferKind::Erc20TransferFrom),
        m == "safeTransfer"@ ==> method_kind_spec(m, n_args) == Some(AssetTransferKind::Erc20SafeTransfer),
        m == "send"@ ==> method_kind_spec(m, n_args) == Some(AssetTransferKind::EthSend),
        m == "transfer"@ && n_args == 1 ==> method_kind_spec(m, n_args) == Some(AssetTransferKind::EthTransfer),
        m == "transfer"@ && n_args != 1 ==> method_kind_spec(m, n_args) == Some(AssetTransferKind::Erc20Transfer),
        m != "transfer"@ && m != "safeTransfer"@ && m != "transferFrom"@ && m != "safeTransferFrom"@ && m != "send"@
            ==> method_kind_spec(m, n_args) is None,
{
    reveal_strlit("transfer");
    reveal_strlit("safeTransfer");
    reveal_strlit("transferFrom");
    reveal_strlit("safeTransferFrom");
    reveal_strlit("send");
    assert("transfer"@.len() == 8 && "safeTransfer"@.len() == 12 && "transferFrom"@.len() == 12);
    assert("safeTransferFrom"@.len() == 16 && "send"@.len() == 4);
    assert("transferFrom"@[0] != "safeTransfer"@[0]);
    assert("transferFrom"@ != "safeTransfer"@);
}

fn text_is(m: &Vec<char>, t: &str) -> (b: bool)
    ensures
        b == (m@ == t@),
{
    let tv = chars_of(t);
    crate::strings::chars_eq(m, &tv)
}

/// Whether a member name is one of the transfer methods.
pub fn is_transfer_method(member_name: &str) -> (b: bool)
    ensures
        b == is_transfer_method_spec(member_name@),
{
    let m = chars_of(member_name);
    text_is(&m, "transfer") || text_is(&m, "safeTransfer") || text_is(&m, "transferFrom")
        || text_is(&m, "safeTransferFrom") || text_is(&m, "send")
}

/// The transfer kind of a method called with `n_args` arguments.
pub fn method_to_kind(member_name: &str, n_args: usize) -> (r: Option<AssetTransferKind>)
    ensures
        r == method_kind_spec(member_name@, n_args as nat),
{
    let m = chars_of(member_name);
    if text_is(&m, "transfer") {
        if n_args == 1 { Some(AssetTransferKind::EthTransfer) } else { Some(AssetTransferKind::Erc20Transfer) }
    } else if text_is(&m, "safeTransfer") {
        Some(AssetTransferKind::Erc20SafeTransfer)
    } else if text_is(&m, "transferFrom") {
        Some(AssetTransferKind::Erc20TransferFrom)
    } else if text_is(&m, "safeTransferFrom") {
        Some(AssetTransferKind::Erc20SafeTransferFrom)
    } else if text_is(&m, "send") {
        Some(AssetTransferKind::EthSend)
    } else {
        None
    }
}

/// A single asset transfer call site.
#[derive(Debug)]
pub struct AssetTransfer {
    /// The contract or library containing the function that transfers.
    pub contract_name: String,
    /// The function containing the transfer.
    pub function_name: String,
    /// The visibility of the function.
    pub visibility: String,
    /// The source expression (function signature or call expression).
    pub expression: String,
    /// The kind of asset transfer.
    pub kind: AssetTransferKind,
    /// The source file path (relative to the project root).
    pub file: String,
    /// The 1-based line number in the source file.
    pub line: usize,
}

/// A single ERC20 `transfer` or `safeTransfer` call site.
#[derive(Debug)]
pub struct Erc20TransferSink {
    /// The contract or library containing the function that transfers.
    pub contract_name: String,
    /// The function containing the transfer.
    pub function_name: String,
    /// The source text of the transfer call expression.
    pub transfer_expression: String,
    /// The source file path (relative to the project root).
    pub file: String,
    /// The 1-based line number in the source file.
    pub line: usize,
}

/// `file:line:expression`.
pub open spec fn sink_text(s: Erc20TransferSink) -> Seq<char> {
    s.file@ + ":"@ + decimal(s.line as nat) + ":"@ + s.transfer_expression@
}

impl Erc20TransferSink {
    /// The sink as `file:line:expression`.
    pub fn to_string(&self) -> (r: String)
        ensures
            r@ == sink_text(*self),
    {
        let mut r = self.file.clone();
        push_str(&mut r, ":");
        let l = decimal_exec(self.line);
        push_str(&mut r, l.as_str());
        push_str(&mut r, ":");
        push_str(&mut r, self.transfer_expression.as_str());
        r
    }
}

/// `s` with every `|` escaped as `\|` for a Markdown table cell.
pub open spec fn escape_pipes(s: Seq<char>) -> Seq<char>
    decreases s.len(),
{
    if s.len() == 0 {
        Seq::empty()
    } else {
        escape_pipes(s.drop_last()) + if s.last() == '|' { seq!['\\', '|'] } else { seq![s.last()] }
    }
}

/// Append `s` with every `|` escaped.
fn push_escaped(out: &mut String, s: &str)
    ensures
        final(out)@ == old(out)@ + escape_pipes(s@),
{
    let v = chars_of(s);
    let ghost start = out@;
    let mut i: usize = 0;
    while i < v.len()
        invariant
            i <= v@.len(),
            out@ == start + escape_pipes(v@.take(i as int)),
        decreases v@.len() - i,
    {
        assert(v@.take(i + 1).drop_last() =~= v@.take(i as int));
        if v[i] == '|' {
            push_char(out, '\\');
            push_char(out, '|');
        } else {
            push_char(out, v[i]);
        }
        assert(out@ =~= start + escape_pipes(v@.take(i + 1)));
        i = i + 1;
    }
    assert(v@.take(v@.len() as int) == v@);
}

/// Sort key of a finding: file (path order), then line, then contract.
pub open spec fn finding_key(file: Seq<char>, line: usize, contract: Seq<char>) -> Seq<u128> {
    text_key(file, true) + num_key(line as nat) + text_key(contract, false)
}

/// The summary line of a report: `1 <one> found.` or `<n> <many> found.`.
pub open spec fn summary_spec(n: nat, one: Seq<char>, many: Seq<char>) -> Seq<char> {
    if n == 1 {
        "1 "@ + one + " found."@
    } else {
        decimal(n) + " "@ + many + " found."@
    }
}

fn push_summary(out: &mut String, n: usize, one: &str, many: &str)
    ensures
        final(out)@ == old(out)@ + summary_spec(n as nat, one@, many@),
{
    if n == 1 {
        push_str(out, "1 ");
        push_str(out, one);
        push_str(out, " found.");
    } else {
        let d = decimal_exec(n);
        push_str(out, d.as_str());
        push_str(out, " ");
        push_str(out, many);
        push_str(out, " found.");
    }
}

// ---------------------------------------------------------------------------
// ERC20 transfer sink report
// ---------------------------------------------------------------------------

/// One table row of the sink report.
pub open spec fn sink_row(s: Erc20TransferSink, i: nat) -> Seq<char> {
    "| "@ + decimal(i) + " | `"@ + s.contract_name@ + "` | `"@ + s.function_name@ + "` | `"@
        + escape_pipes(s.transfer_expression@) + "` | `"@ + s.file@ + ":"@ + decimal(s.line as nat) + "` |\n"@
}

/// The sort keys of the sinks.
pub open spec fn sink_keys(ss: Seq<Erc20TransferSink>) -> Seq<Seq<u128>> {
    ss.map_values(|s: Erc20TransferSink| finding_key(s.file@, s.line, s.contract_name@))
}

/// The rows of the first `k` sinks in order `o`.
pub open spec fn sink_rows(ss: Seq<Erc20TransferSink>, o: Seq<usize>, k: int) -> Seq<char>
    decreases k,
{
    if k <= 0 || k > o.len() {
        Seq::empty()
    } else {
        sink_rows(ss, o, k - 1) + sink_row(ss[o[k - 1] as int], k as nat)
    }
}

/// The sink report: heading, summary, and (when there are sinks) a table of
/// them sorted by file, line and contract.
pub open spec fn sink_report(ss: Seq<Erc20TransferSink>) -> Seq<char> {
    let o = key_sorted_order(sink_keys(ss));
    "## ERC20 Transfer Sinks\n\n"@ + summary_spec(ss.len(), "ERC20 transfer sink"@, "ERC20 transfer sinks"@) + "\n\n"@
        + if ss.len() == 0 {
        Seq::empty()
    } else {
        "| # | Contract | Function | Transfer | Source Location |\n| - | -------- | -------- | -------- | --------------- |\n"@
            + sink_rows(ss, o, o.len() as int)
    }
}

/// Append one row of the sink report.
fn push_sink_row(out: &mut String, s: &Erc20TransferSink, i: usize)
    ensures
        final(out)@ == old(out)@ + sink_row(*s, i as nat),
{
    let ghost start = out@;
    push_str(out, "| ");
    let d = decimal_exec(i);
    push_str(out, d.as_str());
    push_str(out, " | `");
    push_str(out, s.contract_name.as_str());
    push_str(out, "` | `");
    push_str(out, s.function_name.as_str());
    push_str(out, "` | `");
    push_escaped(out, s.transfer_expression.as_str());
    push_str(out, "` | `");
    push_str(out, s.file.as_str());
    push_str(out, ":");
    let l = decimal_exec(s.line);
    push_str(out, l.as_str());
    push_str(out, "` |\n");
    assert(out@ =~= start + sink_row(*s, i as nat));
}

/// The output of an ERC20 transfer sink scan.
pub struct Erc20TransferSinkScannerOutput {
    pub sinks: Vec<Erc20TransferSink>,
    pub project_root: String,
}

impl Erc20TransferSinkScannerOutput {
    /// Wrap the sinks found in a project.
    pub fn new(sinks: Vec<Erc20TransferSink>, project_root: String) -> (r: Self)
        ensures
            r.sinks == sinks,
            r.project_root == project_root,
    {
        Erc20TransferSinkScannerOutput { sinks, project_root }
    }

    /// The Markdown report.
    pub fn to_string(&self) -> (r: String)
        ensures
            r@ == sink_report(self.sinks@),
    {
        let ss = &self.sinks;
        let mut keys: Vec<Vec<u128>> = Vec::new();
        let mut i: usize = 0;
        while i < ss.len()
            invariant
                i <= ss@.len(),
                keys@.len() == i,
                keys@.map_values(|k: Vec<u128>| k@) == sink_keys(ss@).take(i as int),
            decreases ss@.len() - i,
        {
            let mut k: Vec<u128> = Vec::new();
            push_text_key(&mut k, ss[i].file.as_str(), true);
            push_num_key(&mut k, ss[i].line);
            push_text_key(&mut k, ss[i].contract_name.as_str(), false);
            assert(k@ =~= finding_key(ss@[i as int].file@, ss@[i as int].line, ss@[i as int].contract_name@));
            keys.push(k);
            assert(keys@.map_values(|k: Vec<u128>| k@)[i as int] == sink_keys(ss@)[i as int]);
            assert(keys@.map_values(|k: Vec<u128>| k@) =~= sink_keys(ss@).take(i + 1));
            i = i + 1;
        }
        assert(sink_keys(ss@).take(ss@.len() as int) =~= sink_keys(ss@));
        let order = key_order(&keys);
        let mut out = String::from_str("## ERC20 Transfer Sinks\n\n");
        push_summary(&mut out, ss.len(), "ERC20 transfer sink", "ERC20 transfer sinks");
        push_str(&mut out, "\n\n");
        if ss.len() == 0 {
            return out;
        }
        push_str(&mut out, "| # | Contract | Function | Transfer | Source Location |\n| - | -------- | -------- | -------- | --------------- |\n");
        let ghost head = out@;
        let ghost o = order@;
        let mut k: usize = 0;
        while k < order.len()
            invariant
                o == order@,
                is_key_order(sink_keys(ss@), o),
                o.len() == ss@.len(),
                k <= o.len(),
                out@ == head + sink_rows(ss@, o, k as int),
            decreases o.len() - k,
        {
            push_sink_row(&mut out, &ss[order[k]], k + 1);
            assert(out@ =~= head + sink_rows(ss@, o, k + 1));
            k = k + 1;
        }
        out
    }
}

// ---------------------------------------------------------------------------
// Asset transfer report
// ---------------------------------------------------------------------------

/// One table row of the asset transfer report.
pub open spec fn transfer_row(t: AssetTransfer, i: nat) -> Seq<char> {
    "| "@ + decimal(i) + " | `"@ + t.contract_name@ + "` | `"@ + t.function_name@ + "` | "@ + t.visibility@
        + " | `"@ + escape_pipes(t.expression@) + "` | "@ + kind_text(t.kind) + " | `"@ + t.file@ + ":"@
        + decimal(t.line as nat) + "` |\n"@
}

/// The sort keys of the transfers.
pub open spec fn transfer_keys(ts: Seq<AssetTransfer>) -> Seq<Seq<u128>> {
    ts.map_values(|t: AssetTransfer| finding_key(t.file@, t.line, t.contract_name@))
}

/// The rows of the first `k` transfers in order `o`.
pub open spec fn transfer_rows(ts: Seq<AssetTransfer>, o: Seq<usize>, k: int) -> Seq<char>
    decreases k,
{
    if k <= 0 || k > o.len() {
        Seq::empty()
    } else {
        transfer_rows(ts, o, k - 1) + transfer_row(ts[o[k - 1] as int], k as nat)
    }
}

/// The asset transfer report: heading, summary, and (when there are
/// transfers) a table of them sorted by file, line and contract.
pub open spec fn transfer_report(ts: Seq<AssetTransfer>) -> Seq<char> {
    let o = key_sorted_order(transfer_keys(ts));
    "## Asset Transfers\n\n"@ + summary_spec(ts.len(), "asset transfer"@, "asset transfers"@) + "\n\n"@
        + if ts.len() == 0 {
        Seq::empty()
    } else {
        "| # | Contract | Function | Visibility | Expression | Kind | Source Location |\n| - | -------- | -------- | ---------- | ---------- | ---- | --------------- |\n"@
            + transfer_rows(ts, o, o.len() as int)
    }
}

/// Append one row of the asset transfer report.
fn push_transfer_row(out: &mut String, t: &AssetTransfer, i: usize)
    ensures
        final(out)@ == old(out)@ + transfer_row(*t, i as nat),
{
    let ghost start = out@;
    push_str(out, "| ");
    let d = decimal_exec(i);
    push_str(out, d.as_str());
    push_str(out, " | `");
    push_str(out, t.contract_name.as_str());
    push_str(out, "` | `");
    push_str(out, t.function_name.as_str());
    push_str(out, "` | ");
    push_str(out, t.visibility.as_str());
    push_str(out, " | `");
    push_escaped(out, t.expression.as_str());
    push_str(out, "` | ");
    let kt = t.kind.to_string();
    push_str(out, kt.as_str());
    push_str(out, " | `");
    push_str(out, t.file.as_str());
    push_str(out, ":");
    let l = decimal_exec(t.line);
    push_str(out, l.as_str());
    push_str(out, "` |\n");
    assert(out@ =~= start + transfer_row(*t, i as nat));
}

/// The output of an asset transfer scan.
pub struct AssetTransferScannerOutput {
    pub transfers: Vec<AssetTransfer>,
    pub project_root: String,
}

impl AssetTransferScannerOutput {
    /// Wrap the transfers found in a project.
    pub fn new(transfers: Vec<AssetTransfer>, project_root: String) -> (r: Self)
        ensures
            r.transfers == transfers,
            r.project_root == project_root,
    {
        AssetTransferScannerOutput { transfers, project_root }
    }

    /// The Markdown report.
    pub fn to_string(&self) -> (r: String)
        ensures
            r@ == transfer_report(self.transfers@),
    {
        let ts = &self.transfers;
        let mut keys: Vec<Vec<u128>> = Vec::new();
        let mut i: usize = 0;
        while i < ts.len()
            invariant
                i <= ts@.len(),
                keys@.len() == i,
                keys@.map_values(|k: Vec<u128>| k@) == transfer_keys(ts@).take(i as int),
            decreases ts@.len() - i,
        {
            let mut k: Vec<u128> = Vec::new();
            push_text_key(&mut k, ts[i].file.as_str(), true);
            push_num_key(&mut k, ts[i].line);
            push_text_key(&mut k, ts[i].contract_name.as_str(), false);
            assert(k@ =~= finding_key(ts@[i as int].file@, ts@[i as int].line, ts@[i as int].contract_name@));
            keys.push(k);
            assert(keys@.map_values(|k: Vec<u128>| k@)[i as int] == transfer_keys(ts@)[i as int]);
            assert(keys@.map_values(|k: Vec<u128>| k@) =~= transfer_keys(ts@).take(i + 1));
            i = i + 1;
        }
        assert(transfer_keys(ts@).take(ts@.len() as int) =~= transfer_keys(ts@));
        let order = key_order(&keys);
        let mut out = String::from_str("## Asset Transfers\n\n");
        push_summary(&mut out, ts.len(), "asset transfer", "asset transfers");
        push_str(&mut out, "\n\n");
        if ts.len() == 0 {
            return out;
        }
        push_str(&mut out, "| # | Contract | Function | Visibility | Expression | Kind | Source Location |\n| - | -------- | -------- | ---------- | ---------- | ---- | --------------- |\n");
        let ghost head = out@;
        let ghost o = order@;
        let mut k: usize = 0;
        while k < order.len()
            invariant
                o == order@,
                is_key_order(transfer_keys(ts@), o),
                o.len() == ts@.len(),
                k <= o.len(),
                out@ == head + transfer_rows(ts@, o, k as int),
            decreases o.len() - k,
        {
            push_transfer_row(&mut out, &ts[order[k]], k + 1);
            assert(out@ =~= head + transfer_rows(ts@, o, k + 1));
            k = k + 1;
        }
        out
    }
}

} // verus!
