//! Windows: the print spooler through PowerShell cmdlets.

use vstd::prelude::*;

use super::{err_text, ok_text, os_printer, plan, stdout_or_stderr, strings, CommandOutput, CommandPlan};
use crate::json::{as_str, field_of, get_field, json_parsed, parse_json, str_of, JsonValue};
use crate::model::{texts, PrinterInfo};
use crate::serial::{
    first_where, lemma_first_where_first, lemma_first_where_found, lemma_first_where_none,
    lemma_first_where_step, list_contains,
};
use crate::text::{
    chars_of, contains, control, has_prefix, has_substring, is_control, lines, lower_seq,
    push_str, split_lines, starts_with, string_of, to_lower, trim, trim_chars,
};

verus! {

pub struct WindowsStrategy;

// ───────────────────────── quoting ─────────────────────────

/// One character inside a single-quoted PowerShell string: a quote is
/// doubled, control characters are dropped.
pub open spec fn ps_escape_char(c: char) -> Seq<char> {
    if c == '\'' {
        seq!['\'', '\'']
    } else if is_control(c) {
        seq![]
    } else {
        seq![c]
    }
}

pub open spec fn ps_escaped(s: Seq<char>) -> Seq<char>
    decreases s.len(),
{
    if s.len() == 0 {
        seq![]
    } else {
        ps_escape_char(s[0]) + ps_escaped(s.drop_first())
    }
}

pub open spec fn without_controls(s: Seq<char>) -> Seq<char>
    decreases s.len(),
{
    if s.len() == 0 {
        seq![]
    } else if is_control(s[0]) {
        without_controls(s.drop_first())
    } else {
        seq![s[0]] + without_controls(s.drop_first())
    }
}

/// How PowerShell reads the inside of a single-quoted string: `''` is one
/// quote.
pub open spec fn ps_unquoted(e: Seq<char>) -> Seq<char>
    decreases e.len(),
{
    if e.len() == 0 {
        seq![]
    } else if e[0] == '\'' && e.len() >= 2 && e[1] == '\'' {
        seq!['\''] + ps_unquoted(e.skip(2))
    } else {
        seq![e[0]] + ps_unquoted(e.drop_first())
    }
}

/// The text can stand between single quotes without closing the string:
/// every quote in it is part of a `''` pair.
pub open spec fn ps_quoted_body(e: Seq<char>) -> bool
    decreases e.len(),
{
    if e.len() == 0 {
        true
    } else if e[0] == '\'' {
        e.len() >= 2 && e[1] == '\'' && ps_quoted_body(e.skip(2))
    } else {
        ps_quoted_body(e.drop_first())
    }
}

proof fn lemma_ps_escaped_push(s: Seq<char>, c: char)
    ensures
        ps_escaped(s.push(c)) == ps_escaped(s) + ps_escape_char(c),
    decreases s.len(),
{
    if s.len() == 0 {
        assert(s.push(c).drop_first() =~= seq![]);
        assert(ps_escaped(seq![]) =~= seq![]);
        assert(ps_escaped(s.push(c)) =~= ps_escape_char(c));
    } else {
        lemma_ps_escaped_push(s.drop_first(), c);
        assert(s.push(c).drop_first() =~= s.drop_first().push(c));
        assert(ps_escaped(s.push(c)) =~= ps_escaped(s) + ps_escape_char(c));
    }
}

/// An escaped argument interpolated between single quotes stays inside the
/// string literal, reads back as the argument without its control
/// characters, and holds no control character.
pub proof fn lemma_ps_escape_safe(s: Seq<char>)
    ensures
        ps_quoted_body(ps_escaped(s)),
        ps_unquoted(ps_escaped(s)) == without_controls(s),
        forall|i: int| 0 <= i < ps_escaped(s).len() ==> !is_control(#[trigger] ps_escaped(s)[i]),
    decreases s.len(),
{
    if s.len() > 0 {
        lemma_ps_escape_safe(s.drop_first());
        let rest = ps_escaped(s.drop_first());
        let e = ps_escaped(s);
        let c = s[0];
        if c == '\'' {
            assert(e.skip(2) =~= rest);
            assert(e[0] == '\'' && e[1] == '\'');
        } else if is_control(c) {
            assert(e =~= rest);
        } else {
            assert(e.drop_first() =~= rest);
        }
        assert forall|i: int| 0 <= i < e.len() implies !is_control(#[trigger] e[i]) by {
            if c == '\'' {
                if i >= 2 {
                    assert(e[i] == rest[i - 2]);
                }
            } else if !is_control(c) {
                if i >= 1 {
                    assert(e[i] == rest[i - 1]);
                }
            }
        }
    } else {
        assert(ps_escaped(s) =~= seq![]);
        assert(ps_unquoted(seq![]) =~= seq![]);
    }
}

/// Escapes text for interpolation inside `'…'` in a PowerShell script.
pub fn ps_escape_arg(input: &str) -> (r: String)
    ensures
        r@ == ps_escaped(input@),
{
    let v = chars_of(input);
    let mut out: Vec<char> = Vec::new();
    let mut i: usize = 0;
    while i < v.len()
        invariant
            i <= v@.len(),
            v@ == input@,
            out@ == ps_escaped(v@.take(i as int)),
        decreases v@.len() - i,
    {
        let c = v[i];
        if c == '\'' {
            out.push('\'');
            out.push('\'');
        } else if !control(c) {
            out.push(c);
        }
        proof {
            lemma_ps_escaped_push(v@.take(i as int), c);
            assert(v@.take(i + 1) =~= v@.take(i as int).push(c));
        }
        i += 1;
    }
    assert(v@.take(v@.len() as int) =~= v@);
    string_of(&out)
}

// ───────────────────────── PowerShell commands ─────────────────────────

pub open spec fn powershell_args(script: Seq<char>) -> Seq<Seq<char>> {
    seq!["-NoLogo"@, "-NoProfile"@, "-NonInteractive"@, "-WindowStyle"@, "Hidden"@, "-Command"@, script]
}

/// `powershell -NoLogo -NoProfile -NonInteractive -WindowStyle Hidden -Command SCRIPT`.
pub fn powershell(script: String) -> (p: CommandPlan)
    ensures
        p.program@ == "powershell"@,
        texts(p.args@) == powershell_args(script@),
        p.stdin is None,
{
    let mut args = strings(&["-NoLogo", "-NoProfile", "-NonInteractive", "-WindowStyle", "Hidden", "-Command"]);
    args.push(script);
    assert(texts(args@) =~= powershell_args(script@));
    plan("powershell", args)
}

impl WindowsStrategy {
    pub fn list_printers_command(&self) -> (p: CommandPlan)
        ensures
            p.program@ == "powershell"@,
            texts(p.args@) == powershell_args(
                "Get-Printer | Select-Object Name,PrinterStatus,Default | ConvertTo-Json"@,
            ),
    {
        powershell(string_of(&chars_of("Get-Printer | Select-Object Name,PrinterStatus,Default | ConvertTo-Json")))
    }

    /// A TCP/IP port `IP_<ip>` and a queue on it with the given driver.
    pub fn install_network_command(&self, ip: &str, name: &str, driver: &str) -> (p: CommandPlan)
        ensures
            p.program@ == "powershell"@,
            texts(p.args@) == powershell_args(
                "Add-PrinterPort -Name 'IP_"@ + ps_escaped(ip@) + "' -PrinterHostAddress '"@
                    + ps_escaped(ip@) + "'; Add-Printer -Name '"@ + ps_escaped(name@)
                    + "' -PortName 'IP_"@ + ps_escaped(ip@) + "' -DriverName '"@ + driver@ + "'"@,
            ),
    {
        let eip = ps_escape_arg(ip);
        let ename = ps_escape_arg(name);
        let mut v = chars_of("Add-PrinterPort -Name 'IP_");
        push_str(&mut v, eip.as_str());
        push_str(&mut v, "' -PrinterHostAddress '");
        push_str(&mut v, eip.as_str());
        push_str(&mut v, "'; Add-Printer -Name '");
        push_str(&mut v, ename.as_str());
        push_str(&mut v, "' -PortName 'IP_");
        push_str(&mut v, eip.as_str());
        push_str(&mut v, "' -DriverName '");
        push_str(&mut v, driver);
        push_str(&mut v, "'");
        powershell(string_of(&v))
    }

    /// A queue on a USB port; a queue of the same name already on that port
    /// is removed first, so registering twice does not duplicate it.
    pub fn install_usb_command(&self, port: &str, name: &str, driver: &str) -> (p: CommandPlan)
        ensures
            p.program@ == "powershell"@,
            texts(p.args@) == powershell_args(
                "$p = Get-Printer -Name '"@ + ps_escaped(name@) + "' -EA SilentlyContinue; if ($p -and $p.PortName -eq '"@
                    + ps_escaped(port@) + "') { Remove-Printer -Name '"@ + ps_escaped(name@)
                    + "' -EA SilentlyContinue }; Add-Printer -Name '"@ + ps_escaped(name@)
                    + "' -PortName '"@ + ps_escaped(port@) + "' -DriverName '"@ + ps_escaped(driver@)
                    + "' -EA Stop"@,
            ),
    {
        let eport = ps_escape_arg(port);
        let ename = ps_escape_arg(name);
        let edriver = ps_escape_arg(driver);
        let mut v = chars_of("$p = Get-Printer -Name '");
        push_str(&mut v, ename.as_str());
        push_str(&mut v, "' -EA SilentlyContinue; if ($p -and $p.PortName -eq '");
        push_str(&mut v, eport.as_str());
        push_str(&mut v, "') { Remove-Printer -Name '");
        push_str(&mut v, ename.as_str());
        push_str(&mut v, "' -EA SilentlyContinue }; Add-Printer -Name '");
        push_str(&mut v, ename.as_str());
        push_str(&mut v, "' -PortName '");
        push_str(&mut v, eport.as_str());
        push_str(&mut v, "' -DriverName '");
        push_str(&mut v, edriver.as_str());
        push_str(&mut v, "' -EA Stop");
        powershell(string_of(&v))
    }

    pub fn remove_printer_command(&self, queue_name: &str) -> (p: CommandPlan)
        ensures
            p.program@ == "powershell"@,
            texts(p.args@) == powershell_args(
                "Remove-Printer -Name '"@ + ps_escaped(queue_name@) + "'"@,
            ),
    {
        let e = ps_escape_arg(queue_name);
        let mut v = chars_of("Remove-Printer -Name '");
        push_str(&mut v, e.as_str());
        push_str(&mut v, "'");
        powershell(string_of(&v))
    }

    pub fn rename_printer_command(&self, queue_name: &str, new_name: &str) -> (p: CommandPlan)
        ensures
            p.program@ == "powershell"@,
            texts(p.args@) == powershell_args(
                "Rename-Printer -Name '"@ + ps_escaped(queue_name@) + "' -NewName '"@ + ps_escaped(
                    new_name@,
                ) + "'"@,
            ),
    {
        let eq = ps_escape_arg(queue_name);
        let en = ps_escape_arg(new_name);
        let mut v = chars_of("Rename-Printer -Name '");
        push_str(&mut v, eq.as_str());
        push_str(&mut v, "' -NewName '");
        push_str(&mut v, en.as_str());
        push_str(&mut v, "'");
        powershell(string_of(&v))
    }

    pub fn clear_queue_command(&self, queue_name: &str) -> (p: CommandPlan)
        ensures
            p.program@ == "powershell"@,
            texts(p.args@) == powershell_args(
                "Get-PrintJob -PrinterName '"@ + ps_escaped(queue_name@) + "' | Remove-PrintJob"@,
            ),
    {
        let e = ps_escape_arg(queue_name);
        let mut v = chars_of("Get-PrintJob -PrinterName '");
        push_str(&mut v, e.as_str());
        push_str(&mut v, "' | Remove-PrintJob");
        powershell(string_of(&v))
    }

    /// A spooler cmdlet: its standard output on success, its standard error
    /// otherwise.
    pub fn run_ps_result(&self, out: &CommandOutput) -> (r: Result<String, String>)
        ensures
            out.success ==> ok_text(r, out.stdout@),
            !out.success ==> err_text(r, out.stderr@),
    {
        stdout_or_stderr(out)
    }

    /// Whether a USB port is a virtual port of the spooler (`USB001`, …),
    /// which cannot be opened as a device.
    pub fn is_spooler_usb_port(&self, port: &str) -> (b: bool)
        ensures
            b == has_prefix(crate::text::upper_seq(port@), "USB"@),
    {
        starts_with(&crate::text::to_upper(&chars_of(port)), &chars_of("USB"))
    }

    pub fn test_usb_printer_message(&self, port: &str, size: &str) -> (r: String)
        ensures
            r@ == "PDF de prueba enviado al puerto "@ + port@ + " ["@ + size@ + "]"@,
    {
        crate::text::concat5("PDF de prueba enviado al puerto ", port, " [", size, "]")
    }
}

// ───────────────────────── printer listing ─────────────────────────

/// What `Get-Printer | Select-Object Name,PrinterStatus,Default` gives for
/// one printer: each field when present with the expected JSON type.
pub struct PowerShellPrinterRow {
    pub name: Option<String>,
    pub is_default: Option<bool>,
    pub printer_status: Option<u64>,
}

/// The `Get-Printer` JSON, which is an object for a single printer, as an
/// array.
/// The listing as a JSON array: PowerShell writes a single printer as a
/// bare object.
pub open spec fn ps_json_array_text(json: Seq<char>) -> Seq<char> {
    if has_prefix(trim(json), "["@) {
        trim(json)
    } else {
        "["@ + trim(json) + "]"@
    }
}

pub fn powershell_json_array(json: &str) -> (r: String)
    ensures
        r@ == ps_json_array_text(json@),
{
    let t = trim_chars(&chars_of(json));
    if starts_with(&t, &chars_of("[")) {
        string_of(&t)
    } else {
        let mut v = chars_of("[");
        crate::text::push_all(&mut v, t.as_slice());
        push_str(&mut v, "]");
        string_of(&v)
    }
}

/// The listed printers: rows without a name are skipped; a printer is the
/// default one when `Default` is true, and available when `PrinterStatus`
/// is 3 (idle).
pub open spec fn ps_printers(rows: Seq<PowerShellPrinterRow>) -> Seq<(Seq<char>, bool, bool)>
    decreases rows.len(),
{
    if rows.len() == 0 {
        seq![]
    } else {
        let r = rows.last();
        let rest = ps_printers(rows.drop_last());
        match r.name {
            Some(n) => rest.push(
                (
                    n@,
                    r.is_default == Some(true),
                    r.printer_status == Some(3u64),
                ),
            ),
            None => rest,
        }
    }
}

pub fn parse_powershell_rows(rows: &Vec<PowerShellPrinterRow>) -> (r: Vec<PrinterInfo>)
    ensures
        r@.len() == ps_printers(rows@).len(),
        forall|i: int|
            0 <= i < r@.len() ==> super::is_os_printer(
                #[trigger] r@[i],
                ps_printers(rows@)[i].0,
                ps_printers(rows@)[i].1,
                ps_printers(rows@)[i].2,
            ),
{
    let mut r: Vec<PrinterInfo> = Vec::new();
    let mut i: usize = 0;
    while i < rows.len()
        invariant
            i <= rows@.len(),
            r@.len() == ps_printers(rows@.take(i as int)).len(),
            forall|k: int|
                0 <= k < r@.len() ==> super::is_os_printer(
                    #[trigger] r@[k],
                    ps_printers(rows@.take(i as int))[k].0,
                    ps_printers(rows@.take(i as int))[k].1,
                    ps_printers(rows@.take(i as int))[k].2,
                ),
        decreases rows@.len() - i,
    {
        let row = &rows[i];
        assert(rows@.take(i + 1).drop_last() =~= rows@.take(i as int));
        assert(rows@.take(i + 1).last() == rows@[i as int]);
        match &row.name {
            Some(n) => {
                let is_default = match row.is_default {
                    Some(b) => b,
                    None => false,
                };
                let available = match row.printer_status {
                    Some(s) => s == 3,
                    None => false,
                };
                r.push(os_printer(&chars_of(n.as_str()), is_default, available));
            },
            None => {},
        }
        i += 1;
    }
    assert(rows@.take(rows@.len() as int) =~= rows@);
    r
}

// ───────────────────────── printer drivers ─────────────────────────

/// The row of one element of the listing: `Name` where it is a string,
/// `Default` where it is a boolean, `PrinterStatus` where it is an unsigned
/// integer.
pub open spec fn row_of(v: JsonValue) -> PowerShellPrinterRow {
    PowerShellPrinterRow {
        name: as_str(field_of(v, "Name"@)),
        is_default: match field_of(v, "Default"@) {
            Some(JsonValue::Bool(b)) => Some(b),
            _ => None,
        },
        printer_status: match field_of(v, "PrinterStatus"@) {
            Some(JsonValue::Number(n)) => n,
            _ => None,
        },
    }
}

/// The rows of a parsed listing: one per element of the array; `None` when
/// the listing is not a JSON array.
pub open spec fn ps_rows(j: Option<JsonValue>) -> Option<Seq<PowerShellPrinterRow>> {
    match j {
        Some(JsonValue::Array(items)) => Some(items@.map_values(|v: JsonValue| row_of(v))),
        _ => None,
    }
}

fn row_from(v: &JsonValue) -> (r: PowerShellPrinterRow)
    ensures
        r == row_of(*v),
{
    let name = str_of(get_field(v, "Name"));
    let is_default = match get_field(v, "Default") {
        Some(JsonValue::Bool(b)) => Some(*b),
        _ => None,
    };
    let printer_status = match get_field(v, "PrinterStatus") {
        Some(JsonValue::Number(n)) => *n,
        _ => None,
    };
    PowerShellPrinterRow { name, is_default, printer_status }
}

fn rows_from(j: &Option<JsonValue>) -> (r: Option<Vec<PowerShellPrinterRow>>)
    ensures
        match ps_rows(*j) {
            Some(rows) => r matches Some(v) && v@ == rows,
            None => r is None,
        },
{
    match j {
        Some(JsonValue::Array(items)) => {
            let mut rows: Vec<PowerShellPrinterRow> = Vec::new();
            let mut i: usize = 0;
            while i < items.len()
                invariant
                    i <= items@.len(),
                    rows@ == items@.take(i as int).map_values(|v: JsonValue| row_of(v)),
                decreases items@.len() - i,
            {
                rows.push(row_from(&items[i]));
                assert(rows@ =~= items@.take(i + 1).map_values(|v: JsonValue| row_of(v)));
                i += 1;
            }
            assert(items@.take(items@.len() as int) =~= items@);
            Some(rows)
        },
        _ => None,
    }
}

/// The queues of the system in the output of `Get-Printer | Select-Object
/// Name,PrinterStatus,Default | ConvertTo-Json`: none when it is not a JSON
/// array (after wrapping a bare object).
pub fn parse_powershell_json(stdout: &str) -> (r: Vec<PrinterInfo>)
    ensures
        match ps_rows(json_parsed(ps_json_array_text(stdout@))) {
            Some(rows) => r@.len() == ps_printers(rows).len() && forall|i: int|
                0 <= i < r@.len() ==> super::is_os_printer(
                    #[trigger] r@[i],
                    ps_printers(rows)[i].0,
                    ps_printers(rows)[i].1,
                    ps_printers(rows)[i].2,
                ),
            None => r@.len() == 0,
        },
{
    let arr = powershell_json_array(stdout);
    let parsed = parse_json(arr.as_str());
    match rows_from(&parsed) {
        Some(rows) => parse_powershell_rows(&rows),
        None => Vec::new(),
    }
}

pub fn driver_names_command() -> (p: CommandPlan)
    ensures
        p.program@ == "powershell"@,
        texts(p.args@) == powershell_args("(Get-PrinterDriver -EA SilentlyContinue).Name"@),
{
    powershell(string_of(&chars_of("(Get-PrinterDriver -EA SilentlyContinue).Name")))
}

/// The non-empty trimmed lines.
pub open spec fn nonempty_trimmed(ls: Seq<Seq<char>>) -> Seq<Seq<char>>
    decreases ls.len(),
{
    if ls.len() == 0 {
        seq![]
    } else if trim(ls.last()).len() > 0 {
        nonempty_trimmed(ls.drop_last()).push(trim(ls.last()))
    } else {
        nonempty_trimmed(ls.drop_last())
    }
}

/// The installed driver names, one per line of the output.
pub fn parse_driver_names(stdout: &str) -> (r: Vec<String>)
    ensures
        texts(r@) == nonempty_trimmed(lines(stdout@)),
{
    let ls = split_lines(&chars_of(stdout));
    let ghost all = lines(stdout@);
    let mut r: Vec<String> = Vec::new();
    let mut i: usize = 0;
    while i < ls.len()
        invariant
            i <= ls@.len(),
            all == lines(stdout@),
            ls@.len() == all.len(),
            forall|k: int| 0 <= k < ls@.len() ==> #[trigger] ls@[k]@ == all[k],
            texts(r@) == nonempty_trimmed(all.take(i as int)),
        decreases ls@.len() - i,
    {
        let t = trim_chars(&ls[i]);
        assert(all.take(i + 1).drop_last() =~= all.take(i as int));
        assert(all.take(i + 1).last() == ls@[i as int]@);
        if t.len() > 0 {
            r.push(string_of(&t));
            assert(texts(r@) =~= nonempty_trimmed(all.take(i as int)).push(t@));
        }
        i += 1;
    }
    assert(all.take(ls@.len() as int) =~= all);
    r
}

/// The raw text driver that passes ESC/POS through untouched.
pub open spec fn preferred_driver() -> Seq<char> {
    "Generic / Text Only"@
}

/// The preferred driver, when it is already installed.
pub fn preferred_driver_if_installed(installed: &Vec<String>) -> (r: Option<String>)
    ensures
        r is Some <==> texts(installed@).contains(preferred_driver()),
        r matches Some(d) ==> d@ == preferred_driver(),
{
    let p = chars_of("Generic / Text Only");
    if list_contains(installed, &p) {
        Some(string_of(&p))
    } else {
        None
    }
}

/// The installation script reports success by printing `OK`.
pub fn install_script_succeeded(stdout: &str) -> (b: bool)
    ensures
        b == has_substring(stdout@, "OK"@),
{
    crate::text::str_contains(stdout, "OK")
}

/// The script that installs the preferred driver from the driver store or
/// from `%windir%\inf`, printing `OK` once it is present.
pub fn generic_driver_install_script() -> (r: String)
    ensures
        r@ == GENERIC_DRIVER_INSTALL_SCRIPT@,
{
    string_of(&chars_of(GENERIC_DRIVER_INSTALL_SCRIPT))
}

pub const GENERIC_DRIVER_INSTALL_SCRIPT: &'static str = "$name = 'Generic / Text Only'
$dsInf = Get-Item \"$env:windir\\System32\\DriverStore\\FileRepository\\prnge001.inf_*\\prnge001.inf\" `
    -EA SilentlyContinue | Sort-Object LastWriteTime -Descending | Select-Object -First 1
$candidates = [System.Collections.ArrayList]@()
if ($dsInf) { [void]$candidates.Add($dsInf.FullName) }
[void]$candidates.Add(\"$env:windir\\inf\\prnge001.inf\")
[void]$candidates.Add(\"$env:windir\\inf\\prngeneric.inf\")
foreach ($inf in $candidates) {
    if (-not (Test-Path $inf -EA SilentlyContinue)) { continue }
    try { Add-PrinterDriver -Name $name -InfPath $inf -EA Stop 2>&1 | Out-Null } catch {}
    if (Get-PrinterDriver -Name $name -EA SilentlyContinue) { Write-Output 'OK'; exit }
    try {
        pnputil /add-driver \"$inf\" /install 2>&1 | Out-Null
        Add-PrinterDriver -Name $name -EA Stop 2>&1 | Out-Null
    } catch {}
    if (Get-PrinterDriver -Name $name -EA SilentlyContinue) { Write-Output 'OK'; exit }
}
Write-Output 'FAIL'";

pub open spec fn is_generic_driver(d: Seq<char>) -> bool {
    has_substring(lower_seq(d), "generic"@)
}

/// Drivers that render to a file, a fax or a notebook rather than a printer.
pub open spec fn is_virtual_driver(d: Seq<char>) -> bool {
    let l = lower_seq(d);
    has_substring(l, "pdf"@) || has_substring(l, "xps"@) || has_substring(l, "fax"@)
        || has_substring(l, "onenote"@) || has_substring(l, "virtual print class"@)
}

pub open spec fn ipp_driver() -> Seq<char> {
    "Microsoft IPP Class Driver"@
}

pub open spec fn point_and_print_driver() -> Seq<char> {
    "Microsoft enhanced Point and Print compatibility driver"@
}

pub open spec fn software_driver() -> Seq<char> {
    "Microsoft Software Printer Driver"@
}

/// The driver chosen when the preferred one could not be installed: the
/// first installed driver whose name contains `generic` (any case); else a
/// known Microsoft pass-through driver, in this order; else the first
/// installed driver that is not virtual; else none.
pub open spec fn fallback_driver_choice(installed: Seq<Seq<char>>) -> Option<Seq<char>> {
    match first_where(installed, |d: Seq<char>| is_generic_driver(d)) {
        Some(d) => Some(d),
        None => if installed.contains(ipp_driver()) {
            Some(ipp_driver())
        } else if installed.contains(point_and_print_driver()) {
            Some(point_and_print_driver())
        } else if installed.contains(software_driver()) {
            Some(software_driver())
        } else {
            first_where(installed, |d: Seq<char>| !is_virtual_driver(d))
        },
    }
}

/// The driver chosen after a failed installation is one of the installed
/// drivers. It is the first one whose name mentions `generic` (any case),
/// else one of the Microsoft pass-through drivers; otherwise it is the
/// first installed driver whose lower-case name mentions none of `pdf`,
/// `xps`, `fax`, `onenote` and `virtual print class`, every driver before
/// it mentioning one of them. The pass-through drivers are tried in the
/// order IPP class, enhanced Point and Print, software printer. No driver is
/// chosen only when every installed driver mentions one of those words and
/// none mentions `generic`.
pub proof fn lemma_fallback_driver_not_virtual(installed: Seq<Seq<char>>)
    ensures
        fallback_driver_choice(installed) matches Some(d) ==> installed.contains(d),
        first_where(installed, |d: Seq<char>| has_substring(lower_seq(d), "generic"@)) is None
            ==> (fallback_driver_choice(installed) matches Some(d) ==> d == ipp_driver() || d
            == point_and_print_driver() || d == software_driver() || exists|i: int|
            #![trigger installed[i]]
            0 <= i < installed.len() && installed[i] == d && !(has_substring(lower_seq(d), "pdf"@)
                || has_substring(lower_seq(d), "xps"@) || has_substring(lower_seq(d), "fax"@)
                || has_substring(lower_seq(d), "onenote"@) || has_substring(
                lower_seq(d),
                "virtual print class"@,
            )) && forall|k: int|
                0 <= k < i ==> {
                    let l = lower_seq(#[trigger] installed[k]);
                    has_substring(l, "pdf"@) || has_substring(l, "xps"@) || has_substring(l, "fax"@)
                        || has_substring(l, "onenote"@) || has_substring(l, "virtual print class"@)
                }),
        first_where(installed, |d: Seq<char>| has_substring(lower_seq(d), "generic"@)) matches Some(
            g,
        ) ==> fallback_driver_choice(installed) == Some(g) && has_substring(lower_seq(g), "generic"@)
            && exists|i: int|
            #![trigger installed[i]]
            0 <= i < installed.len() && installed[i] == g && forall|k: int|
                0 <= k < i ==> !has_substring(lower_seq(#[trigger] installed[k]), "generic"@),
        first_where(installed, |d: Seq<char>| has_substring(lower_seq(d), "generic"@)) is None
            && installed.contains("Microsoft IPP Class Driver"@) ==> fallback_driver_choice(installed)
            == Some("Microsoft IPP Class Driver"@),
        first_where(installed, |d: Seq<char>| has_substring(lower_seq(d), "generic"@)) is None
            && !installed.contains("Microsoft IPP Class Driver"@) && installed.contains(
            "Microsoft enhanced Point and Print compatibility driver"@,
        ) ==> fallback_driver_choice(installed) == Some(
            "Microsoft enhanced Point and Print compatibility driver"@,
        ),
        first_where(installed, |d: Seq<char>| has_substring(lower_seq(d), "generic"@)) is None
            && !installed.contains("Microsoft IPP Class Driver"@) && !installed.contains(
            "Microsoft enhanced Point and Print compatibility driver"@,
        ) && installed.contains("Microsoft Software Printer Driver"@) ==> fallback_driver_choice(
            installed,
        ) == Some("Microsoft Software Printer Driver"@),
        fallback_driver_choice(installed) is None ==> forall|k: int|
            0 <= k < installed.len() ==> {
                let l = lower_seq(#[trigger] installed[k]);
                !has_substring(l, "generic"@) && (has_substring(l, "pdf"@) || has_substring(l, "xps"@)
                    || has_substring(l, "fax"@) || has_substring(l, "onenote"@) || has_substring(
                    l,
                    "virtual print class"@,
                ))
            },
{
    let generic = |d: Seq<char>| is_generic_driver(d);
    let usable = |d: Seq<char>| !is_virtual_driver(d);
    assert(generic == (|d: Seq<char>| has_substring(lower_seq(d), "generic"@)));
    lemma_first_where_first(installed, generic);
    lemma_first_where_first(installed, usable);
    lemma_first_where_found(installed, generic);
    lemma_first_where_found(installed, usable);
}

fn is_generic_exec(d: &Vec<char>) -> (b: bool)
    ensures
        b == is_generic_driver(d@),
{
    contains(&to_lower(d), &chars_of("generic"))
}

fn is_virtual_exec(d: &Vec<char>) -> (b: bool)
    ensures
        b == is_virtual_driver(d@),
{
    let l = to_lower(d);
    contains(&l, &chars_of("pdf")) || contains(&l, &chars_of("xps")) || contains(&l, &chars_of("fax"))
        || contains(&l, &chars_of("onenote")) || contains(&l, &chars_of("virtual print class"))
}

fn first_generic(installed: &Vec<String>) -> (r: Option<String>)
    ensures
        match r {
            Some(s) => first_where(texts(installed@), |d: Seq<char>| is_generic_driver(d)) == Some(s@),
            None => first_where(texts(installed@), |d: Seq<char>| is_generic_driver(d)) is None,
        },
{
    let ghost t = texts(installed@);
    let ghost pred = |d: Seq<char>| is_generic_driver(d);
    let mut i: usize = 0;
    while i < installed.len()
        invariant
            i <= installed@.len(),
            t == texts(installed@),
            pred == (|d: Seq<char>| is_generic_driver(d)),
            forall|k: int| 0 <= k < i ==> !pred(#[trigger] t[k]),
        decreases installed@.len() - i,
    {
        let d = chars_of(installed[i].as_str());
        if is_generic_exec(&d) {
            proof {
                lemma_first_where_step(t, pred, i as int);
                assert(t.skip(i as int)[0] == d@);
            }
            return Some(installed[i].clone());
        }
        i += 1;
    }
    proof {
        lemma_first_where_none(t, pred);
    }
    None
}

fn first_not_virtual(installed: &Vec<String>) -> (r: Option<String>)
    ensures
        match r {
            Some(s) => first_where(texts(installed@), |d: Seq<char>| !is_virtual_driver(d)) == Some(s@),
            None => first_where(texts(installed@), |d: Seq<char>| !is_virtual_driver(d)) is None,
        },
{
    let ghost t = texts(installed@);
    let ghost pred = |d: Seq<char>| !is_virtual_driver(d);
    let mut i: usize = 0;
    while i < installed.len()
        invariant
            i <= installed@.len(),
            t == texts(installed@),
            pred == (|d: Seq<char>| !is_virtual_driver(d)),
            forall|k: int| 0 <= k < i ==> !pred(#[trigger] t[k]),
        decreases installed@.len() - i,
    {
        let d = chars_of(installed[i].as_str());
        if !is_virtual_exec(&d) {
            proof {
                lemma_first_where_step(t, pred, i as int);
                assert(t.skip(i as int)[0] == d@);
            }
            return Some(installed[i].clone());
        }
        i += 1;
    }
    proof {
        lemma_first_where_none(t, pred);
    }
    None
}

/// The driver to use after an installation attempt (see
/// [`fallback_driver_choice`]), or the error shown when there is none.
pub fn fallback_driver(installed: &Vec<String>) -> (r: Result<String, String>)
    ensures
        match fallback_driver_choice(texts(installed@)) {
            Some(d) => ok_text(r, d),
            None => err_text(
                r,
                "No se encontró ningún controlador de impresora compatible. Verifica que el servicio de cola de impresión (Spooler) esté activo."@,
            ),
        },
{
    if let Some(d) = first_generic(installed) {
        return Ok(d);
    }
    let ipp = chars_of("Microsoft IPP Class Driver");
    if list_contains(installed, &ipp) {
        return Ok(string_of(&ipp));
    }
    let pnp = chars_of("Microsoft enhanced Point and Print compatibility driver");
    if list_contains(installed, &pnp) {
        return Ok(string_of(&pnp));
    }
    let sw = chars_of("Microsoft Software Printer Driver");
    if list_contains(installed, &sw) {
        return Ok(string_of(&sw));
    }
    if let Some(d) = first_not_virtual(installed) {
        return Ok(d);
    }
    Err(
        string_of(
            &chars_of(
                "No se encontró ningún controlador de impresora compatible. Verifica que el servicio de cola de impresión (Spooler) esté activo.",
            ),
        ),
    )
}

/// The error shown when no usable driver exists.
pub open spec fn no_driver_error() -> Seq<char> {
    "No se encontró ningún controlador de impresora compatible. Verifica que el servicio de cola de impresión (Spooler) esté activo."@
}

/// After the installation attempt: the fallback choice among the drivers
/// installed then, or the error.
pub open spec fn driver_after_install<L: FnOnce() -> Vec<String>>(installed_after: L, r: Result<String, String>) -> bool {
    exists|b: Vec<String>|
        #[trigger] installed_after.ensures((), b) && match fallback_driver_choice(texts(b@)) {
            Some(d) => ok_text(r, d),
            None => err_text(r, no_driver_error()),
        }
}

/// Whether the installation script printed `OK`.
pub open spec fn install_reported_ok(out: Option<String>) -> bool {
    out matches Some(o) && has_substring(o@, "OK"@)
}

/// Finds a raw driver for ESC/POS printers: `Generic / Text Only` when it is
/// installed (`installed_now`); else the installation script is run
/// (`run_install`, given the script, returns its output or `None` when it
/// could not run) and, when it reports `OK`, that driver is used; else the
/// fallback choice among the drivers installed afterwards
/// (`installed_after`).
pub fn find_or_install_generic_driver<
    L1: FnOnce() -> Vec<String>,
    I: FnOnce(String) -> Option<String>,
    L2: FnOnce() -> Vec<String>,
>(installed_now: L1, run_install: I, installed_after: L2) -> (r: Result<String, String>)
    requires
        installed_now.requires(()),
        forall|s: String| run_install.requires((s,)),
        installed_after.requires(()),
    ensures
        exists|a: Vec<String>|
            #[trigger] installed_now.ensures((), a) && (if texts(a@).contains(preferred_driver()) {
                ok_text(r, preferred_driver())
            } else {
                exists|script: String, out: Option<String>|
                    #[trigger] run_install.ensures((script,), out) && script@
                        == GENERIC_DRIVER_INSTALL_SCRIPT@ && (if install_reported_ok(out) {
                        ok_text(r, preferred_driver())
                    } else {
                        driver_after_install(installed_after, r)
                    })
            }),
{
    let a = installed_now();
    if let Some(d) = preferred_driver_if_installed(&a) {
        return Ok(d);
    }
    let script = generic_driver_install_script();
    let out = run_install(script);
    let ok = match &out {
        Some(o) => install_script_succeeded(o.as_str()),
        None => false,
    };
    if ok {
        return Ok(string_of(&chars_of("Generic / Text Only")));
    }
    let b = installed_after();
    fallback_driver(&b)
}

} // verus!
