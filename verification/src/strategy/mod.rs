//! Operating-system strategies. Every printer operation that depends on the
//! operating system is a command to run (`lpstat`, `lpadmin`, `lp`,
//! `cancel`, `powershell`) followed by the reading of its output. Each
//! strategy says which command an operation runs and what the operation
//! returns for the command's output; running the command is the caller's
//! part.

use vstd::prelude::*;

use crate::model::{texts, PrinterInfo};
use crate::text::{
    chars_of, contains, has_prefix, has_substring, lines, split_lines, split_words, starts_with,
    string_of, words,
};

pub mod linux;
pub mod mac;
pub mod windows;

verus! {

/// A command line: program, arguments, and the bytes to write to its
/// standard input (if any).
pub struct CommandPlan {
    pub program: String,
    pub args: Vec<String>,
    pub stdin: Option<Vec<u8>>,
}

/// What a finished command reported: whether it exited successfully, and
/// its standard output and error decoded as text.
pub struct CommandOutput {
    pub success: bool,
    pub stdout: String,
    pub stderr: String,
}

/// The operating system the monitor runs on.
#[derive(Clone, Copy, Debug, PartialEq, Eq)]
pub enum TargetOs {
    MacOs,
    Windows,
    Linux,
}

/// The strategy in use.
pub enum Strategy {
    Mac(mac::MacStrategy),
    Windows(windows::WindowsStrategy),
    Linux(linux::LinuxStrategy),
}

/// Selects the strategy of the operating system.
pub fn get_strategy(os: TargetOs) -> (s: Strategy)
    ensures
        os == TargetOs::MacOs ==> s is Mac,
        os == TargetOs::Windows ==> s is Windows,
        os == TargetOs::Linux ==> s is Linux,
{
    match os {
        TargetOs::MacOs => Strategy::Mac(mac::MacStrategy),
        TargetOs::Windows => Strategy::Windows(windows::WindowsStrategy),
        TargetOs::Linux => Strategy::Linux(linux::LinuxStrategy),
    }
}

/// A list of strings from literals.
pub fn strings(items: &[&str]) -> (v: Vec<String>)
    ensures
        v@.len() == items@.len(),
        forall|i: int| 0 <= i < items@.len() ==> #[trigger] v@[i]@ == items@[i]@,
{
    let mut v: Vec<String> = Vec::new();
    let mut i: usize = 0;
    while i < items.len()
        invariant
            i <= items@.len(),
            v@.len() == i,
            forall|k: int| 0 <= k < i ==> #[trigger] v@[k]@ == items@[k]@,
        decreases items@.len() - i,
    {
        v.push(string_of(&chars_of(items[i])));
        i += 1;
    }
    v
}

/// A command without standard input.
pub fn plan(program: &str, args: Vec<String>) -> (p: CommandPlan)
    ensures
        p.program@ == program@,
        p.args@ == args@,
        p.stdin is None,
{
    CommandPlan { program: string_of(&chars_of(program)), args, stdin: None }
}

/// `r` is `Ok` with the text `t`.
pub open spec fn ok_text(r: Result<String, String>, t: Seq<char>) -> bool {
    r matches Ok(s) && s@ == t
}

/// `r` is `Err` with the text `t`.
pub open spec fn err_text(r: Result<String, String>, t: Seq<char>) -> bool {
    r matches Err(e) && e@ == t
}

/// The result of a command whose success is reported by its standard
/// output, and whose failure by its standard error.
pub fn stdout_or_stderr(out: &CommandOutput) -> (r: Result<String, String>)
    ensures
        out.success ==> ok_text(r, out.stdout@),
        !out.success ==> err_text(r, out.stderr@),
{
    if out.success {
        Ok(out.stdout.clone())
    } else {
        Err(out.stderr.clone())
    }
}

/// The result of a command whose success is reported by a fixed message,
/// and whose failure by its standard error.
pub fn message_or_stderr(out: &CommandOutput, message: String) -> (r: Result<String, String>)
    ensures
        out.success ==> ok_text(r, message@),
        !out.success ==> err_text(r, out.stderr@),
{
    if out.success {
        Ok(message)
    } else {
        Err(out.stderr.clone())
    }
}

// ───────────────────────── CUPS `lpstat -p -d` ─────────────────────────

/// `lpstat -p -d`: the printers and the default destination.
pub fn lpstat_command() -> (p: CommandPlan)
    ensures
        p.program@ == "lpstat"@,
        texts(p.args@) == seq!["-p"@, "-d"@],
        p.stdin is None,
{
    let args = strings(&["-p", "-d"]);
    assert(texts(args@) =~= seq!["-p"@, "-d"@]);
    plan("lpstat", args)
}

/// The printers in `lpstat` output: each line that starts with `printer `
/// and has a second word names a printer (that word); it is available when
/// the line mentions `idle`.
pub open spec fn lpstat_entries(ls: Seq<Seq<char>>) -> Seq<(Seq<char>, bool)>
    decreases ls.len(),
{
    if ls.len() == 0 {
        seq![]
    } else {
        let l = ls.last();
        let rest = lpstat_entries(ls.drop_last());
        if has_prefix(l, "printer "@) && words(l).len() >= 2 {
            rest.push((words(l)[1], has_substring(l, "idle"@)))
        } else {
            rest
        }
    }
}

/// Every printer read from `lpstat` comes from a line `printer NAME …` of
/// the output, and is available exactly when that line says `idle`.
pub proof fn lemma_lpstat_status(ls: Seq<Seq<char>>, i: int)
    requires
        0 <= i < lpstat_entries(ls).len(),
    ensures
        exists|j: int|
            #![trigger ls[j]]
            0 <= j < ls.len() && has_prefix(ls[j], "printer "@) && words(ls[j]).len() >= 2
                && lpstat_entries(ls)[i].0 == words(ls[j])[1] && (lpstat_entries(ls)[i].1 <==> has_substring(
                ls[j],
                "idle"@,
            )),
    decreases ls.len(),
{
    let rest = ls.drop_last();
    let l = ls.last();
    if i < lpstat_entries(rest).len() {
        lemma_lpstat_status(rest, i);
        let j = choose|j: int|
            #![trigger rest[j]]
            0 <= j < rest.len() && has_prefix(rest[j], "printer "@) && words(rest[j]).len() >= 2
                && lpstat_entries(rest)[i].0 == words(rest[j])[1] && (lpstat_entries(rest)[i].1
                <==> has_substring(rest[j], "idle"@));
        assert(rest[j] == ls[j]);
        assert(lpstat_entries(ls)[i] == lpstat_entries(rest)[i]);
    } else {
        assert(ls[ls.len() - 1] == l);
    }
}

/// Every line `printer NAME …` of the `lpstat` output gives a listed
/// printer of that name, available exactly when the line says `idle`.
pub proof fn lemma_lpstat_line_listed(ls: Seq<Seq<char>>, j: int)
    requires
        0 <= j < ls.len(),
        has_prefix(ls[j], "printer "@),
        words(ls[j]).len() >= 2,
    ensures
        exists|i: int|
            #![trigger lpstat_entries(ls)[i]]
            0 <= i < lpstat_entries(ls).len() && lpstat_entries(ls)[i].0 == words(ls[j])[1] && (
            lpstat_entries(ls)[i].1 <==> has_substring(ls[j], "idle"@)),
    decreases ls.len(),
{
    let rest = ls.drop_last();
    if j < ls.len() - 1 {
        assert(rest[j] == ls[j]);
        lemma_lpstat_line_listed(rest, j);
        let i = choose|i: int|
            #![trigger lpstat_entries(rest)[i]]
            0 <= i < lpstat_entries(rest).len() && lpstat_entries(rest)[i].0 == words(rest[j])[1] && (
            lpstat_entries(rest)[i].1 <==> has_substring(rest[j], "idle"@));
        assert(lpstat_entries(ls)[i] == lpstat_entries(rest)[i]);
    } else {
        let i = lpstat_entries(rest).len() as int;
        assert(lpstat_entries(ls)[i] == (words(ls[j])[1], has_substring(ls[j], "idle"@)));
    }
}

/// A queue of the operating system, as listed.
pub open spec fn is_os_printer(p: PrinterInfo, name: Seq<char>, is_default: bool, available: bool) -> bool {
    &&& p.name@ == name
    &&& p.queue_name@ == name
    &&& p.is_default == is_default
    &&& p.status@ == (if available { "Disponible"@ } else { "Ocupada"@ })
    &&& p.source@ == "os"@
    &&& p.connection_type@ == "os"@
    &&& p.address is None
}

pub fn os_printer(name: &Vec<char>, is_default: bool, available: bool) -> (p: PrinterInfo)
    ensures
        is_os_printer(p, name@, is_default, available),
{
    PrinterInfo {
        name: string_of(name),
        queue_name: string_of(name),
        is_default,
        status: if available {
            string_of(&chars_of("Disponible"))
        } else {
            string_of(&chars_of("Ocupada"))
        },
        source: string_of(&chars_of("os")),
        connection_type: string_of(&chars_of("os")),
        address: None,
    }
}

/// Reads the printers of `lpstat -p -d` output.
pub fn parse_lpstat_lines(stdout: &str) -> (r: Vec<PrinterInfo>)
    ensures
        r@.len() == lpstat_entries(lines(stdout@)).len(),
        forall|i: int|
            0 <= i < r@.len() ==> is_os_printer(
                #[trigger] r@[i],
                lpstat_entries(lines(stdout@))[i].0,
                false,
                lpstat_entries(lines(stdout@))[i].1,
            ),
        forall|i: int|
            0 <= i < r@.len() ==> exists|j: int|
                #![trigger lines(stdout@)[j]]
                0 <= j < lines(stdout@).len() && has_prefix(lines(stdout@)[j], "printer "@) && words(
                    lines(stdout@)[j],
                ).len() >= 2 && (#[trigger] r@[i]).name@ == words(lines(stdout@)[j])[1]
                    && r@[i].status@ == (if has_substring(lines(stdout@)[j], "idle"@) {
                    "Disponible"@
                } else {
                    "Ocupada"@
                }),
        forall|j: int|
            0 <= j < lines(stdout@).len() && has_prefix(#[trigger] lines(stdout@)[j], "printer "@)
                && words(lines(stdout@)[j]).len() >= 2 ==> exists|i: int|
                #![trigger r@[i]]
                0 <= i < r@.len() && r@[i].name@ == words(lines(stdout@)[j])[1] && r@[i].status@ == (
                if has_substring(lines(stdout@)[j], "idle"@) {
                    "Disponible"@
                } else {
                    "Ocupada"@
                }),
{
    let ls = split_lines(&chars_of(stdout));
    let prefix = chars_of("printer ");
    let idle = chars_of("idle");
    let ghost all = lines(stdout@);
    let mut r: Vec<PrinterInfo> = Vec::new();
    let mut i: usize = 0;
    while i < ls.len()
        invariant
            i <= ls@.len(),
            prefix@ == "printer "@,
            idle@ == "idle"@,
            all == lines(stdout@),
            ls@.len() == all.len(),
            forall|k: int| 0 <= k < ls@.len() ==> #[trigger] ls@[k]@ == all[k],
            r@.len() == lpstat_entries(all.take(i as int)).len(),
            forall|k: int|
                0 <= k < r@.len() ==> is_os_printer(
                    #[trigger] r@[k],
                    lpstat_entries(all.take(i as int))[k].0,
                    false,
                    lpstat_entries(all.take(i as int))[k].1,
                ),
        decreases ls@.len() - i,
    {
        let line = &ls[i];
        let ghost prev = all.take(i as int);
        assert(all.take(i + 1).drop_last() =~= prev);
        assert(all.take(i + 1).last() == line@);
        if starts_with(line, &prefix) {
            let parts = split_words(line);
            if parts.len() >= 2 {
                let available = contains(line, &idle);
                let p = os_printer(&parts[1], false, available);
                r.push(p);
            }
        }
        i += 1;
    }
    assert(all.take(ls@.len() as int) =~= all);
    proof {
        assert forall|k: int| 0 <= k < r@.len() implies exists|j: int|
            #![trigger all[j]]
            0 <= j < all.len() && has_prefix(all[j], "printer "@) && words(all[j]).len() >= 2
                && (#[trigger] r@[k]).name@ == words(all[j])[1] && r@[k].status@ == (if has_substring(
                all[j],
                "idle"@,
            ) {
                "Disponible"@
            } else {
                "Ocupada"@
            }) by {
            lemma_lpstat_status(all, k);
            let j = choose|j: int|
                #![trigger all[j]]
                0 <= j < all.len() && has_prefix(all[j], "printer "@) && words(all[j]).len() >= 2
                    && lpstat_entries(all)[k].0 == words(all[j])[1] && (lpstat_entries(all)[k].1
                    <==> has_substring(all[j], "idle"@));
            assert(all[j] == all[j]);
        }
        assert forall|j: int|
            0 <= j < all.len() && has_prefix(#[trigger] all[j], "printer "@) && words(all[j]).len()
                >= 2 implies exists|k: int|
            #![trigger r@[k]]
            0 <= k < r@.len() && r@[k].name@ == words(all[j])[1] && r@[k].status@ == (
            if has_substring(all[j], "idle"@) {
                "Disponible"@
            } else {
                "Ocupada"@
            }) by {
            lemma_lpstat_line_listed(all, j);
            let k = choose|k: int|
                #![trigger lpstat_entries(all)[k]]
                0 <= k < lpstat_entries(all).len() && lpstat_entries(all)[k].0 == words(all[j])[1] && (
                lpstat_entries(all)[k].1 <==> has_substring(all[j], "idle"@));
            assert(0 <= k < r@.len());
            assert(is_os_printer(r@[k], lpstat_entries(all)[k].0, false, lpstat_entries(all)[k].1));
            assert(r@[k].name@ == words(all[j])[1]);
        }
    }
    r
}

} // verus!
