//! macOS: CUPS through `lpstat`, `lpadmin`, `lp` and `cancel`.

use vstd::prelude::*;

use super::{err_text, ok_text, message_or_stderr, os_printer, parse_lpstat_lines, plan, strings, CommandOutput, CommandPlan};
use super::lpstat_entries;
use crate::model::{texts, PrinterInfo};
use crate::text::{chars_of, concat2, concat3, concat4, lines, push_repeat, push_str, str_eq, string_of};

verus! {

pub struct MacStrategy;

/// The CUPS model used for thermal printers: the generic text/raw PPD.
pub open spec fn generic_ppd() -> Seq<char> {
    "drv:///sample.drv/generic.ppd"@
}

/// `lpadmin -p NAME -E -v URI -m generic.ppd`: creates and enables a queue.
pub open spec fn lpadmin_install_args(name: Seq<char>, uri: Seq<char>) -> Seq<Seq<char>> {
    seq!["-p"@, name, "-E"@, "-v"@, uri, "-m"@, generic_ppd()]
}

pub fn lpadmin_install(name: &str, uri: String) -> (p: CommandPlan)
    ensures
        p.program@ == "lpadmin"@,
        texts(p.args@) == lpadmin_install_args(name@, uri@),
        p.stdin is None,
{
    let mut args: Vec<String> = Vec::new();
    args.push(string_of(&chars_of("-p")));
    args.push(string_of(&chars_of(name)));
    args.push(string_of(&chars_of("-E")));
    args.push(string_of(&chars_of("-v")));
    args.push(uri);
    args.push(string_of(&chars_of("-m")));
    args.push(string_of(&chars_of("drv:///sample.drv/generic.ppd")));
    assert(texts(args@) =~= lpadmin_install_args(name@, uri@));
    plan("lpadmin", args)
}

/// The test page sent to a CUPS queue: `ESC @`, `ESC ! 0`, a rule of `=`
/// as wide as the paper (32 columns on 58 mm, else 48), the title, `GS V B`.
pub open spec fn mac_test_page(size: Seq<char>) -> Seq<char> {
    let width: nat = if size == "58mm"@ { 32 } else { 48 };
    "\u{1b}@\u{1b}!0"@ + Seq::new(width, |_i: int| '=') + "\n"@ + "  PAGINA DE PRUEBA"@ + "\n\u{1d}VB"@
}

pub fn test_page_escpos(size: &str) -> (r: String)
    ensures
        r@ == mac_test_page(size@),
{
    let width: usize = if str_eq(size, "58mm") {
        32
    } else {
        48
    };
    let mut v = chars_of("\u{1b}@\u{1b}!0");
    push_repeat(&mut v, '=', width);
    push_str(&mut v, "\n");
    push_str(&mut v, "  PAGINA DE PRUEBA");
    push_str(&mut v, "\n\u{1d}VB");
    string_of(&v)
}

impl MacStrategy {
    pub fn list_printers_command(&self) -> (p: CommandPlan)
        ensures
            p.program@ == "lpstat"@,
            texts(p.args@) == seq!["-p"@, "-d"@],
            p.stdin is None,
    {
        super::lpstat_command()
    }

    /// The printers of `lpstat -p -d` output.
    pub fn parse_lpstat_output(&self, stdout: &str) -> (r: Vec<PrinterInfo>)
        ensures
            r@.len() == lpstat_entries(lines(stdout@)).len(),
            forall|i: int|
                0 <= i < r@.len() ==> super::is_os_printer(
                    #[trigger] r@[i],
                    lpstat_entries(lines(stdout@))[i].0,
                    false,
                    lpstat_entries(lines(stdout@))[i].1,
                ),
    {
        parse_lpstat_lines(stdout)
    }

    /// A network printer: a raw socket queue on port 9100.
    pub fn install_network_command(&self, ip: &str, name: &str) -> (p: CommandPlan)
        ensures
            p.program@ == "lpadmin"@,
            texts(p.args@) == lpadmin_install_args(name@, "socket://"@ + ip@ + ":9100"@),
            p.stdin is None,
    {
        lpadmin_install(name, concat3("socket://", ip, ":9100"))
    }

    pub fn install_network_result(&self, ip: &str, name: &str, out: &CommandOutput) -> (r: Result<
        String,
        String,
    >)
        ensures
            out.success ==> ok_text(r, "Impresora '"@ + name@ + "' instalada en "@ + ip@
                + ":9100"@),
            !out.success ==> err_text(r, out.stderr@),
    {
        let mut v = chars_of("Impresora '");
        push_str(&mut v, name);
        push_str(&mut v, "' instalada en ");
        push_str(&mut v, ip);
        push_str(&mut v, ":9100");
        message_or_stderr(out, string_of(&v))
    }

    /// A USB printer: a queue on `usb://PORT`.
    pub fn install_usb_command(&self, port: &str, name: &str) -> (p: CommandPlan)
        ensures
            p.program@ == "lpadmin"@,
            texts(p.args@) == lpadmin_install_args(name@, "usb://"@ + port@),
            p.stdin is None,
    {
        lpadmin_install(name, concat2("usb://", port))
    }

    pub fn install_usb_result(&self, port: &str, name: &str, out: &CommandOutput) -> (r: Result<
        String,
        String,
    >)
        ensures
            out.success ==> ok_text(r, "Impresora USB '"@ + name@ + "' instalada en "@
                + port@),
            !out.success ==> err_text(r, out.stderr@),
    {
        message_or_stderr(out, concat4("Impresora USB '", name, "' instalada en ", port))
    }

    /// `lpadmin -x QUEUE`.
    pub fn remove_printer_command(&self, queue_name: &str) -> (p: CommandPlan)
        ensures
            p.program@ == "lpadmin"@,
            texts(p.args@) == seq!["-x"@, queue_name@],
            p.stdin is None,
    {
        let mut args: Vec<String> = Vec::new();
        args.push(string_of(&chars_of("-x")));
        args.push(string_of(&chars_of(queue_name)));
        assert(texts(args@) =~= seq!["-x"@, queue_name@]);
        plan("lpadmin", args)
    }

    pub fn remove_printer_result(&self, queue_name: &str, out: &CommandOutput) -> (r: Result<
        String,
        String,
    >)
        ensures
            out.success ==> ok_text(r, "Impresora '"@ + queue_name@ + "' eliminada"@),
            !out.success ==> err_text(r, out.stderr@),
    {
        message_or_stderr(out, concat3("Impresora '", queue_name, "' eliminada"))
    }

    /// `lpadmin -p QUEUE -D NEW_NAME`: sets the description shown to users.
    pub fn rename_printer_command(&self, queue_name: &str, new_name: &str) -> (p: CommandPlan)
        ensures
            p.program@ == "lpadmin"@,
            texts(p.args@) == seq!["-p"@, queue_name@, "-D"@, new_name@],
            p.stdin is None,
    {
        let mut args: Vec<String> = Vec::new();
        args.push(string_of(&chars_of("-p")));
        args.push(string_of(&chars_of(queue_name)));
        args.push(string_of(&chars_of("-D")));
        args.push(string_of(&chars_of(new_name)));
        assert(texts(args@) =~= seq!["-p"@, queue_name@, "-D"@, new_name@]);
        plan("lpadmin", args)
    }

    pub fn rename_printer_result(&self, new_name: &str, out: &CommandOutput) -> (r: Result<
        String,
        String,
    >)
        ensures
            out.success ==> ok_text(r, "Impresora renombrada a '"@ + new_name@ + "'"@),
            !out.success ==> err_text(r, out.stderr@),
    {
        message_or_stderr(out, concat3("Impresora renombrada a '", new_name, "'"))
    }

    /// `lp -d QUEUE -` with the test page on standard input.
    pub fn print_test_command(&self, queue_name: &str, size: &str) -> (p: CommandPlan)
        ensures
            p.program@ == "lp"@,
            texts(p.args@) == seq!["-d"@, queue_name@, "-"@],
            p.stdin matches Some(b) && b@ == vstd::utf8::encode_utf8(mac_test_page(size@)),
    {
        let content = test_page_escpos(size);
        let mut bytes: Vec<u8> = Vec::new();
        crate::text::push_all(&mut bytes, content.as_str().as_bytes());
        let mut args: Vec<String> = Vec::new();
        args.push(string_of(&chars_of("-d")));
        args.push(string_of(&chars_of(queue_name)));
        args.push(string_of(&chars_of("-")));
        assert(texts(args@) =~= seq!["-d"@, queue_name@, "-"@]);
        CommandPlan { program: string_of(&chars_of("lp")), args, stdin: Some(bytes) }
    }

    pub fn print_test_result(&self, queue_name: &str, out: &CommandOutput) -> (r: Result<
        String,
        String,
    >)
        ensures
            out.success ==> ok_text(r, "Prueba enviada a '"@ + queue_name@ + "'"@),
            !out.success ==> err_text(r, out.stderr@),
    {
        message_or_stderr(out, concat3("Prueba enviada a '", queue_name, "'"))
    }

    /// `cancel -a QUEUE`: cancels every job of the queue.
    pub fn clear_queue_command(&self, queue_name: &str) -> (p: CommandPlan)
        ensures
            p.program@ == "cancel"@,
            texts(p.args@) == seq!["-a"@, queue_name@],
            p.stdin is None,
    {
        let mut args: Vec<String> = Vec::new();
        args.push(string_of(&chars_of("-a")));
        args.push(string_of(&chars_of(queue_name)));
        assert(texts(args@) =~= seq!["-a"@, queue_name@]);
        plan("cancel", args)
    }

    pub fn clear_queue_result(&self, queue_name: &str, out: &CommandOutput) -> (r: Result<
        String,
        String,
    >)
        ensures
            out.success ==> ok_text(r, "Cola de '"@ + queue_name@ + "' limpiada"@),
            !out.success ==> err_text(r, out.stderr@),
    {
        message_or_stderr(out, concat3("Cola de '", queue_name, "' limpiada"))
    }
}

} // verus!
