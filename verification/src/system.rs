//! The monitor's own installation: the list of printed PDFs in the output
//! directory, newest first, and the start-at-login registration on each
//! operating system.

use vstd::prelude::*;

use crate::model::PrintedFile;
use crate::text::{chars_of, concat3, owned, str_eq};

verus! {

// ─── Printed files ───────────────────────────────────────────────────────────

/// `f` placed after every leading file at least as new as it: the step of a
/// stable sort by modification time, newest first.
pub open spec fn insert_by_age(s: Seq<PrintedFile>, f: PrintedFile) -> Seq<PrintedFile>
    decreases s.len(),
{
    if s.len() == 0 {
        seq![f]
    } else if s[0].modified >= f.modified {
        seq![s[0]] + insert_by_age(s.drop_first(), f)
    } else {
        seq![f] + s
    }
}

/// The files sorted newest first; files with the same time keep their order.
pub open spec fn newest_first(s: Seq<PrintedFile>) -> Seq<PrintedFile>
    decreases s.len(),
{
    if s.len() == 0 {
        Seq::empty()
    } else {
        insert_by_age(newest_first(s.drop_last()), s.last())
    }
}

/// No file comes before a newer one.
pub open spec fn is_newest_first(s: Seq<PrintedFile>) -> bool {
    forall|i: int, j: int| 0 <= i < j < s.len() ==> s[i].modified >= s[j].modified
}

proof fn lemma_insert_at(s: Seq<PrintedFile>, f: PrintedFile, p: int)
    requires
        0 <= p <= s.len(),
        forall|k: int| 0 <= k < p ==> s[k].modified >= f.modified,
        p == s.len() || s[p].modified < f.modified,
    ensures
        insert_by_age(s, f) == s.insert(p, f),
    decreases p,
{
    if p == 0 {
        if s.len() == 0 {
            assert(s.insert(0, f) =~= seq![f]);
        } else {
            assert(s.insert(0, f) =~= seq![f] + s);
        }
    } else {
        let rest = s.drop_first();
        assert forall|k: int| 0 <= k < p - 1 implies rest[k].modified >= f.modified by {
            assert(rest[k] == s[k + 1]);
        }
        lemma_insert_at(rest, f, p - 1);
        assert(s.insert(p, f) =~= seq![s[0]] + rest.insert(p - 1, f));
    }
}

proof fn lemma_insert_keeps_order(s: Seq<PrintedFile>, f: PrintedFile)
    requires
        is_newest_first(s),
    ensures
        is_newest_first(insert_by_age(s, f)),
        insert_by_age(s, f).to_multiset() == s.to_multiset().insert(f),
        insert_by_age(s, f).len() == s.len() + 1,
        forall|k: int|
            0 <= k < insert_by_age(s, f).len() ==> #[trigger] insert_by_age(s, f)[k].modified
                >= f.modified || (exists|m: int| 0 <= m < s.len() && s[m] == insert_by_age(s, f)[k]),
    decreases s.len(),
{
    broadcast use vstd::seq_lib::group_to_multiset_ensures;

    let r = insert_by_age(s, f);
    if s.len() == 0 {
        assert(r =~= seq![f]);
        assert(seq![f] =~= Seq::<PrintedFile>::empty().push(f));
    } else if s[0].modified >= f.modified {
        let rest = s.drop_first();
        assert(is_newest_first(rest)) by {
            assert forall|i: int, j: int| 0 <= i < j < rest.len() implies rest[i].modified
                >= rest[j].modified by {
                assert(rest[i] == s[i + 1] && rest[j] == s[j + 1]);
            }
        }
        lemma_insert_keeps_order(rest, f);
        let t = insert_by_age(rest, f);
        assert(r == seq![s[0]] + t);
        assert forall|i: int, j: int| 0 <= i < j < r.len() implies r[i].modified
            >= r[j].modified by {
            if i == 0 {
                assert(r[j] == t[j - 1]);
                if t[j - 1].modified < f.modified {
                    let m = choose|m: int| 0 <= m < rest.len() && rest[m] == t[j - 1];
                    assert(rest[m] == s[m + 1]);
                }
            } else {
                assert(r[i] == t[i - 1] && r[j] == t[j - 1]);
            }
        }
        assert forall|k: int| 0 <= k < r.len() implies #[trigger] r[k].modified >= f.modified
            || (exists|m: int| 0 <= m < s.len() && s[m] == r[k]) by {
            if k == 0 {
                assert(s[0] == r[0]);
            } else {
                assert(r[k] == t[k - 1]);
                if t[k - 1].modified < f.modified {
                    let m = choose|m: int| 0 <= m < rest.len() && rest[m] == t[k - 1];
                    assert(s[m + 1] == r[k]);
                }
            }
        }
        assert(s =~= seq![s[0]] + rest);
        assert(r.to_multiset() == s.to_multiset().insert(f)) by {
            vstd::seq_lib::lemma_multiset_commutative(seq![s[0]], t);
            vstd::seq_lib::lemma_multiset_commutative(seq![s[0]], rest);
        }
    } else {
        assert(r == seq![f] + s);
        assert(r =~= s.insert(0, f));
        vstd::seq_lib::to_multiset_insert(s, 0, f);
        assert forall|i: int, j: int| 0 <= i < j < r.len() implies r[i].modified
            >= r[j].modified by {
            if i == 0 {
                assert(r[j] == s[j - 1]);
                assert(s[0].modified >= s[j - 1].modified || j - 1 == 0);
            } else {
                assert(r[i] == s[i - 1] && r[j] == s[j - 1]);
            }
        }
        assert forall|k: int| 0 <= k < r.len() implies #[trigger] r[k].modified >= f.modified
            || (exists|m: int| 0 <= m < s.len() && s[m] == r[k]) by {
            if k > 0 {
                assert(s[k - 1] == r[k]);
            }
        }
    }
}

/// Sorting newest first yields a list in which no file comes before a newer
/// one, and which holds exactly the files it was given.
pub proof fn lemma_newest_first(s: Seq<PrintedFile>)
    ensures
        is_newest_first(newest_first(s)),
        newest_first(s).to_multiset() == s.to_multiset(),
        newest_first(s).len() == s.len(),
    decreases s.len(),
{
    broadcast use vstd::seq_lib::group_to_multiset_ensures;

    if s.len() > 0 {
        lemma_newest_first(s.drop_last());
        lemma_insert_keeps_order(newest_first(s.drop_last()), s.last());
        assert(s =~= s.drop_last().push(s.last()));
    }
}

/// Sorts the files newest first, keeping the order of files with the same
/// modification time.
pub fn sort_newest_first(files: Vec<PrintedFile>) -> (r: Vec<PrintedFile>)
    ensures
        r@ == newest_first(files@),
        is_newest_first(r@),
        r@.to_multiset() == files@.to_multiset(),
{
    let ghost orig = files@;
    let mut rest = files;
    let mut out: Vec<PrintedFile> = Vec::new();
    let ghost mut done: int = 0;
    while rest.len() > 0
        invariant
            0 <= done <= orig.len(),
            rest@ == orig.skip(done),
            out@ == newest_first(orig.take(done)),
            is_newest_first(out@),
        decreases rest@.len(),
    {
        let f = rest.remove(0);
        proof {
            lemma_newest_first(orig.take(done));
        }
        let mut p: usize = 0;
        while p < out.len() && out[p].modified >= f.modified
            invariant
                p <= out@.len(),
                forall|k: int| 0 <= k < p ==> out@[k].modified >= f.modified,
            decreases out@.len() - p,
        {
            p += 1;
        }
        proof {
            lemma_insert_at(out@, f, p as int);
            lemma_insert_keeps_order(out@, f);
            assert(orig.take(done + 1).drop_last() =~= orig.take(done));
            assert(orig[done] == f);
            assert(orig.skip(done + 1) =~= orig.skip(done).remove(0));
        }
        out.insert(p, f);
        proof {
            done = done + 1;
        }
    }
    proof {
        assert(orig.take(done) =~= orig);
        lemma_newest_first(orig);
    }
    out
}

/// A directory entry as read from the output directory: its file name, its
/// full path, its length in bytes, and its modification time in
/// milliseconds since the Unix epoch (`None` where the metadata could not
/// be read).
pub struct OutputEntry {
    pub name: String,
    pub path: String,
    pub len: u64,
    pub modified: Option<u64>,
}

/// Whether a file name has the extension `pdf`: it ends in `.pdf` and is not
/// `.pdf` itself (a leading dot starts a hidden name, not an extension).
pub open spec fn is_pdf_name(name: Seq<char>) -> bool {
    name.len() > 4 && name.subrange(name.len() - 4, name.len() as int) == seq!['.', 'p', 'd', 'f']
}

/// Whether a file name has the extension `pdf` (exactly, in lower case).
pub fn is_pdf_file_name(name: &str) -> (b: bool)
    ensures
        b == is_pdf_name(name@),
{
    let v = chars_of(name);
    let n = v.len();
    if n <= 4 {
        return false;
    }
    let b = v[n - 4] == '.' && v[n - 3] == 'p' && v[n - 2] == 'd' && v[n - 1] == 'f';
    proof {
        let tail = name@.subrange(n - 4, n as int);
        if b {
            assert(tail =~= seq!['.', 'p', 'd', 'f']);
        } else {
            if tail == seq!['.', 'p', 'd', 'f'] {
                assert(tail[0] == '.' && tail[1] == 'p' && tail[2] == 'd' && tail[3] == 'f');
            }
        }
    }
    b
}

/// The size in whole kibibytes of a file of `len` bytes.
pub open spec fn size_in_kb(len: u64) -> u64 {
    len / 1024
}

/// The printed file an entry stands for.
pub open spec fn printed_file_of(e: OutputEntry) -> PrintedFile {
    PrintedFile {
        name: e.name,
        path: e.path,
        size_kb: size_in_kb(e.len),
        modified: e.modified.unwrap(),
    }
}

/// Whether an entry is listed: a PDF whose modification time was read.
pub open spec fn is_listed(e: OutputEntry) -> bool {
    is_pdf_name(e.name@) && e.modified is Some
}

/// The PDFs among the entries, in directory order.
pub open spec fn listed_files(s: Seq<OutputEntry>) -> Seq<PrintedFile>
    decreases s.len(),
{
    if s.len() == 0 {
        Seq::empty()
    } else if is_listed(s.last()) {
        listed_files(s.drop_last()).push(printed_file_of(s.last()))
    } else {
        listed_files(s.drop_last())
    }
}

/// The printed files of the output directory, newest first: the entries
/// that are PDFs with a readable modification time, each with its size in
/// kibibytes.
pub fn printed_files(entries: Vec<OutputEntry>) -> (r: Vec<PrintedFile>)
    ensures
        r@ == newest_first(listed_files(entries@)),
        is_newest_first(r@),
        r@.to_multiset() == listed_files(entries@).to_multiset(),
{
    let ghost orig = entries@;
    let mut rest = entries;
    let mut files: Vec<PrintedFile> = Vec::new();
    let ghost mut done: int = 0;
    while rest.len() > 0
        invariant
            0 <= done <= orig.len(),
            rest@ == orig.skip(done),
            files@ == listed_files(orig.take(done)),
        decreases rest@.len(),
    {
        let e = rest.remove(0);
        proof {
            assert(orig.take(done + 1).drop_last() =~= orig.take(done));
            assert(orig[done] == e);
            assert(orig.skip(done + 1) =~= orig.skip(done).remove(0));
        }
        if is_pdf_file_name(e.name.as_str()) {
            match e.modified {
                Some(m) => {
                    files.push(PrintedFile { name: e.name, path: e.path, size_kb: e.len / 1024, modified: m });
                },
                None => {},
            }
        }
        proof {
            done = done + 1;
        }
    }
    proof {
        assert(orig.take(done) =~= orig);
    }
    sort_newest_first(files)
}

// ─── Start at login ──────────────────────────────────────────────────────────

/// The key under which Windows starts programs at login.
pub const WINDOWS_RUN_KEY: &'static str = "HKCU\\Software\\Microsoft\\Windows\\CurrentVersion\\Run";

/// The value name of the monitor under that key.
pub const WINDOWS_RUN_VALUE: &'static str = "CentroDeAyudaCodicore";

/// The argument with which a login start launches the monitor: it starts
/// hidden in the tray.
pub const AUTOSTART_FLAG: &'static str = "--autostart";

/// Whether the monitor was launched at login: one of its arguments is
/// `--autostart`.
pub fn launched_hidden(args: &Vec<String>) -> (b: bool)
    ensures
        b <==> exists|i: int| 0 <= i < args@.len() && args@[i]@ == AUTOSTART_FLAG@,
{
    let mut i: usize = 0;
    while i < args.len()
        invariant
            i <= args@.len(),
            forall|k: int| 0 <= k < i ==> args@[k]@ != AUTOSTART_FLAG@,
        decreases args@.len() - i,
    {
        if str_eq(args[i].as_str(), AUTOSTART_FLAG) {
            return true;
        }
        i += 1;
    }
    false
}

/// The desktop entry that starts the monitor at login on Linux.
pub fn linux_desktop_entry(exe: &str) -> (r: String)
    ensures
        r@ == "[Desktop Entry]\nType=Application\nName=Centro de Ayuda Codicore\nExec="@ + exe@
            + "\nHidden=false\n"@,
{
    concat3(
        "[Desktop Entry]\nType=Application\nName=Centro de Ayuda Codicore\nExec=",
        exe,
        "\nHidden=false\n",
    )
}

/// The launch agent that starts the monitor at login on macOS.
pub fn mac_launch_agent_plist(exe: &str) -> (r: String)
    ensures
        r@ == MAC_PLIST_HEAD@ + exe@ + MAC_PLIST_TAIL@,
{
    concat3(MAC_PLIST_HEAD, exe, MAC_PLIST_TAIL)
}

/// The launch agent up to the program's path.
pub const MAC_PLIST_HEAD: &'static str = "<?xml version=\"1.0\" encoding=\"UTF-8\"?>\n<!DOCTYPE plist PUBLIC \"-//Apple//DTD PLIST 1.0//EN\" \"http://www.apple.com/DTDs/PropertyList-1.0.dtd\">\n<plist version=\"1.0\">\n<dict>\n  <key>Label</key><string>com.codicore.centro-de-ayuda</string>\n  <key>ProgramArguments</key><array><string>";

/// The launch agent after the program's path.
pub const MAC_PLIST_TAIL: &'static str = "</string></array>\n  <key>RunAtLoad</key><true/>\n  <key>KeepAlive</key><false/>\n</dict>\n</plist>";

/// The file, relative to the home directory, of the macOS launch agent.
pub const MAC_LAUNCH_AGENT: &'static str = "Library/LaunchAgents/com.codicore.centro-de-ayuda.plist";

/// The file, relative to the home directory, of the Linux desktop entry.
pub const LINUX_AUTOSTART_ENTRY: &'static str = ".config/autostart/centro-de-ayuda-codicore.desktop";

/// A relative path under a base directory, joined with `/` as a Unix path
/// is: the relative path alone under an empty base, no second `/` after a
/// base that ends in one.
pub open spec fn under(base: Seq<char>, rel: Seq<char>) -> Seq<char> {
    if base.len() == 0 {
        rel
    } else if base.last() == '/' {
        base + rel
    } else {
        base + seq!['/'] + rel
    }
}

/// The path of `rel` under the directory `base`.
pub fn path_under(base: &str, rel: &str) -> (r: String)
    ensures
        r@ == under(base@, rel@),
{
    let b = chars_of(base);
    if b.len() == 0 {
        owned(rel)
    } else if b[b.len() - 1] == '/' {
        crate::text::concat2(base, rel)
    } else {
        proof {
            reveal_strlit("/");
        }
        concat3(base, "/", rel)
    }
}

/// The `reg` arguments that register the monitor to start at login.
pub fn windows_register_args(exe: &str) -> (r: Vec<String>)
    ensures
        r@.len() == 7,
        r@[0]@ == "add"@,
        r@[1]@ == WINDOWS_RUN_KEY@,
        r@[2]@ == "/v"@,
        r@[3]@ == WINDOWS_RUN_VALUE@,
        r@[4]@ == "/d"@,
        r@[5]@ == "\""@ + exe@ + "\" --autostart"@,
        r@[6]@ == "/f"@,
{
    let mut r: Vec<String> = Vec::new();
    r.push(owned("add"));
    r.push(owned(WINDOWS_RUN_KEY));
    r.push(owned("/v"));
    r.push(owned(WINDOWS_RUN_VALUE));
    r.push(owned("/d"));
    r.push(concat3("\"", exe, "\" --autostart"));
    r.push(owned("/f"));
    r
}

/// The `reg` arguments that remove the monitor from the programs started at
/// login.
pub fn windows_unregister_args() -> (r: Vec<String>)
    ensures
        r@.len() == 5,
        r@[0]@ == "delete"@,
        r@[1]@ == WINDOWS_RUN_KEY@,
        r@[2]@ == "/v"@,
        r@[3]@ == WINDOWS_RUN_VALUE@,
        r@[4]@ == "/f"@,
{
    let mut r: Vec<String> = Vec::new();
    r.push(owned("delete"));
    r.push(owned(WINDOWS_RUN_KEY));
    r.push(owned("/v"));
    r.push(owned(WINDOWS_RUN_VALUE));
    r.push(owned("/f"));
    r
}

/// The `reg` arguments that ask whether the monitor starts at login (the
/// command succeeds exactly when it does).
pub fn windows_query_args() -> (r: Vec<String>)
    ensures
        r@.len() == 4,
        r@[0]@ == "query"@,
        r@[1]@ == WINDOWS_RUN_KEY@,
        r@[2]@ == "/v"@,
        r@[3]@ == WINDOWS_RUN_VALUE@,
{
    let mut r: Vec<String> = Vec::new();
    r.push(owned("query"));
    r.push(owned(WINDOWS_RUN_KEY));
    r.push(owned("/v"));
    r.push(owned(WINDOWS_RUN_VALUE));
    r
}

/// What the monitor does about start at login when it starts.
#[derive(Clone, Copy, Debug, PartialEq, Eq)]
pub enum StartupAutostart {
    /// Leave the registration as it is.
    Leave,
    /// First run: register, and record that the first run happened.
    RegisterAndMark,
    /// Already registered: register again so that it names the current
    /// program.
    Refresh,
}

/// Decides what to do about start at login when the monitor starts: nothing
/// in a development build; on the first run, register and record it;
/// afterwards, refresh a registration that exists and leave alone one the
/// user removed. `registered` is asked only when it matters.
pub fn startup_autostart(
    development: bool,
    first_launch: bool,
    registered: impl FnOnce() -> bool,
) -> (a: StartupAutostart)
    requires
        registered.requires(()),
    ensures
        development ==> a == StartupAutostart::Leave,
        !development && first_launch ==> a == StartupAutostart::RegisterAndMark,
        !development && !first_launch ==> a == StartupAutostart::Refresh || a
            == StartupAutostart::Leave,
        a == StartupAutostart::Refresh ==> registered.ensures((), true),
        !development && !first_launch && a == StartupAutostart::Leave ==> registered.ensures(
            (),
            false,
        ),
{
    if development {
        return StartupAutostart::Leave;
    }
    if first_launch {
        return StartupAutostart::RegisterAndMark;
    }
    if registered() {
        StartupAutostart::Refresh
    } else {
        StartupAutostart::Leave
    }
}

} // verus!
