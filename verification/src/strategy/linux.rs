//! Linux (Ubuntu 22.04 and later): CUPS through `lpstat`, `lpadmin`, `lp`
//! and `cancel`, as on macOS; `lpadmin` results carry its own output.

use vstd::prelude::*;

use super::lpstat_entries;
use super::mac::{lpadmin_install, lpadmin_install_args};
use super::{err_text, ok_text, message_or_stderr, parse_lpstat_lines, plan, stdout_or_stderr, CommandOutput, CommandPlan};
use crate::model::{texts, PrinterInfo};
use crate::text::{chars_of, concat2, concat3, lines, push_repeat, push_str, str_eq, string_of};

verus! {

pub struct LinuxStrategy;

/// The test page sent to a CUPS queue: `ESC @`, a rule of `=` as wide as
/// the paper (32 columns on 58 mm, else 48), the title, `GS V B`.
pub open spec fn linux_test_page(size: Seq<char>) -> Seq<char> {
    let width: nat = if size == "58mm"@ { 32 } else { 48 };
    "\u{1b}@"@ + Seq::new(width, |_i: int| '=') + "\nPAGINA DE PRUEBA\n\u{1d}VB"@
}

pub fn linux_test_page_text(size: &str) -> (r: String)
    ensures
        r@ == linux_test_page(size@),
{
    let width: usize = if str_eq(size, "58mm") {
        32
    } else {
        48
    };
    let mut v = chars_of("\u{1b}@");
    push_repeat(&mut v, '=', width);
    push_str(&mut v, "\nPAGINA DE PRUEBA\n\u{1d}VB");
    string_of(&v)
}

impl LinuxStrategy {
    pub fn list_printers_command(&self) -> (p: CommandPlan)
        ensures
            p.program@ == "lpstat"@,
            texts(p.args@) == seq!["-p"@, "-d"@],
            p.stdin is None,
    {
        super::lpstat_command()
    }

    /// The printers of `lpstat -p -d` output.
    pub fn parse_lpstat(&self, stdout: &str) -> (r: Vec<PrinterInfo>)
        ensures
            r@.len() == lpstat_entries(lines(stdout@)).len(),
            forall|i: int|
                0 <= i < r@.len() ==> super::is_os_printer(
                    #[trigger] r@[i],
                    lpstat_entries(lines(stdout@))[i].0,
                    false,
                    lpstat_entries(lines(stdout@))[i].1,
                ),
    {
        parse_lpstat_lines(stdout)
    }

    pub fn install_network_command(&self, ip: &str, name: &str) -> (p: CommandPlan)
        ensures
            p.program@ == "lpadmin"@,
            texts(p.args@) == lpadmin_install_args(name@, "socket://"@ + ip@ + ":9100"@),
            p.stdin is None,
    {
        lpadmin_install(name, concat3("socket://", ip, ":9100"))
    }

    pub fn install_usb_command(&self, port: &str, name: &str) -> (p: CommandPlan)
        ensures
            p.program@ == "lpadmin"@,
            texts(p.args@) == lpadmin_install_args(name@, "usb://"@ + port@),
            p.stdin is None,
    {
        lpadmin_install(name, concat2("usb://", port))
    }

    pub fn remove_printer_command(&self, queue_name: &str) -> (p: CommandPlan)
        ensures
            p.program@ == "lpadmin"@,
            texts(p.args@) == seq!["-x"@, queue_name@],
            p.stdin is None,
    {
        super::mac::MacStrategy.remove_printer_command(queue_name)
    }

    pub fn rename_printer_command(&self, queue_name: &str, new_name: &str) -> (p: CommandPlan)
        ensures
            p.program@ == "lpadmin"@,
            texts(p.args@) == seq!["-p"@, queue_name@, "-D"@, new_name@],
            p.stdin is None,
    {
        super::mac::MacStrategy.rename_printer_command(queue_name, new_name)
    }

    /// `lpadmin` (install, remove, rename): its standard output on success,
    /// its standard error otherwise.
    pub fn lpadmin_result(&self, out: &CommandOutput) -> (r: Result<String, String>)
        ensures
            out.success ==> ok_text(r, out.stdout@),
            !out.success ==> err_text(r, out.stderr@),
    {
        stdout_or_stderr(out)
    }

    /// `lp -d QUEUE -` with the test page on standard input.
    pub fn print_test_command(&self, queue_name: &str, size: &str) -> (p: CommandPlan)
        ensures
            p.program@ == "lp"@,
            texts(p.args@) == seq!["-d"@, queue_name@, "-"@],
            p.stdin matches Some(b) && b@ == vstd::utf8::encode_utf8(linux_test_page(size@)),
    {
        let content = linux_test_page_text(size);
        let mut bytes: Vec<u8> = Vec::new();
        crate::text::push_all(&mut bytes, content.as_str().as_bytes());
        let mut args: Vec<String> = Vec::new();
        args.push(string_of(&chars_of("-d")));
        args.push(string_of(&chars_of(queue_name)));
        args.push(string_of(&chars_of("-")));
        assert(texts(args@) =~= seq!["-d"@, queue_name@, "-"@]);
        CommandPlan { program: string_of(&chars_of("lp")), args, stdin: Some(bytes) }
    }

    pub fn print_test_result(&self, queue_name: &str, out: &CommandOutput) -> (r: Result<
        String,
        String,
    >)
        ensures
            out.success ==> ok_text(r, "Prueba enviada a '"@ + queue_name@ + "'"@),
            !out.success ==> err_text(r, out.stderr@),
    {
        message_or_stderr(out, concat3("Prueba enviada a '", queue_name, "'"))
    }

    pub fn clear_queue_command(&self, queue_name: &str) -> (p: CommandPlan)
        ensures
            p.program@ == "cancel"@,
            texts(p.args@) == seq!["-a"@, queue_name@],
            p.stdin is None,
    {
        super::mac::MacStrategy.clear_queue_command(queue_name)
    }

    pub fn clear_queue_result(&self, out: &CommandOutput) -> (r: Result<String, String>)
        ensures
            out.success ==> ok_text(r, "Cola limpiada"@),
            !out.success ==> err_text(r, out.stderr@),
    {
        message_or_stderr(out, string_of(&chars_of("Cola limpiada")))
    }
}

} // verus!
