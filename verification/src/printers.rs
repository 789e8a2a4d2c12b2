//! Printer operations as the user interface requests them: the printer
//! list (queues of the system and printers registered by the app), and the
//! decisions of the test prints and registrations. What an operation needs
//! from the machine (queue listing, database row, ports) comes in as an
//! argument; the route chosen says what to do next.

use vstd::prelude::*;
use vstd::string::StringSliceAdditionalSpecFns;

use crate::guards::{
    guard_alias_unique, guard_message, guard_non_empty_name, guard_printer_exists_os,
    guard_usb_port_exists, guard_valid_ip, has_queue, ipv4_pattern, regex_match, GuardError,
};
use crate::serial::is_device_interface_path;
use crate::strategy::{err_text, ok_text};
use crate::text::{all_white_space, starts_with};
use crate::model::{CustomPrinter, PrinterInfo};
use crate::printer_cache::{cache_step, get_or_load_printers, TtlCache};
use crate::serial::{resolve_usb_port, resolved_port};
use crate::model::texts;
use crate::text::{before_sep, split_once, chars_of, concat2, concat3, push_all, push_repeat, str_eq, string_of, trim};

verus! {

// ───────────────────────── printer list ─────────────────────────

/// A printer registered by the app, as listed.
pub open spec fn is_app_printer(p: PrinterInfo, cp: CustomPrinter) -> bool {
    &&& p.name@ == cp.alias@
    &&& p.queue_name@ == cp.alias@
    &&& !p.is_default
    &&& p.status@ == "App"@
    &&& p.source@ == "app"@
    &&& p.connection_type@ == cp.connection_type@
    &&& p.address matches Some(a) && a@ == cp.address@
}

pub fn app_printer_info(cp: &CustomPrinter) -> (p: PrinterInfo)
    ensures
        is_app_printer(p, *cp),
{
    PrinterInfo {
        name: cp.alias.clone(),
        queue_name: cp.alias.clone(),
        is_default: false,
        status: string_of(&chars_of("App")),
        source: string_of(&chars_of("app")),
        connection_type: cp.connection_type.clone(),
        address: Some(cp.address.clone()),
    }
}

/// Every registered printer, in order.
pub fn build_app_printers(custom: &Vec<CustomPrinter>) -> (r: Vec<PrinterInfo>)
    ensures
        r@.len() == custom@.len(),
        forall|i: int| 0 <= i < r@.len() ==> is_app_printer(#[trigger] r@[i], custom@[i]),
{
    let mut r: Vec<PrinterInfo> = Vec::new();
    let mut i: usize = 0;
    while i < custom.len()
        invariant
            i <= custom@.len(),
            r@.len() == i,
            forall|k: int| 0 <= k < i ==> is_app_printer(#[trigger] r@[k], custom@[k]),
        decreases custom@.len() - i,
    {
        r.push(app_printer_info(&custom[i]));
        i += 1;
    }
    r
}

/// `r` lists the queues of the system `os` unchanged, then every printer
/// registered by the app, in the order of `custom`.
pub open spec fn merged_list(r: Seq<PrinterInfo>, os: Seq<PrinterInfo>, custom: Seq<CustomPrinter>) -> bool {
    &&& r.len() == os.len() + custom.len()
    &&& forall|i: int| 0 <= i < os.len() ==> #[trigger] r[i] == os[i]
    &&& forall|j: int| 0 <= j < custom.len() ==> is_app_printer(#[trigger] r[os.len() + j], custom[j])
}

/// The printer list: the queues of the system, then the printers registered
/// by the app.
pub fn merge_app_printers(os_list: Vec<PrinterInfo>, custom: &Vec<CustomPrinter>) -> (r: Vec<
    PrinterInfo,
>)
    ensures
        merged_list(r@, os_list@, custom@),
{
    let ghost os = os_list@;
    let mut r = os_list;
    let mut i: usize = 0;
    while i < custom.len()
        invariant
            i <= custom@.len(),
            r@.len() == os.len() + i,
            forall|k: int| 0 <= k < os.len() ==> #[trigger] r@[k] == os[k],
            forall|j: int| 0 <= j < i ==> is_app_printer(#[trigger] r@[os.len() + j], custom@[j]),
        decreases custom@.len() - i,
    {
        r.push(app_printer_info(&custom[i]));
        i += 1;
    }
    r
}

/// The printer list shown to the user: the queues of the system from the
/// cache (listed anew by `list_os` when the cache has none or is stale),
/// then the registered printers (`custom`) the app manages itself.
pub fn load_printers_with_cache<L: FnOnce() -> Vec<PrinterInfo>, C: FnOnce() -> Vec<CustomPrinter>>(
    cache: &mut TtlCache<PrinterInfo>,
    list_os: L,
    custom: C,
) -> (r: Vec<PrinterInfo>)
    requires
        list_os.requires(()),
        custom.requires(()),
    ensures
        exists|os: Vec<PrinterInfo>, cs: Vec<CustomPrinter>, age: Option<u128>|
            #![trigger custom.ensures((), cs), merged_list(r@, os@, cs@), cache_step(*old(cache), *final(cache), age, list_os, os)]
            custom.ensures((), cs) && merged_list(r@, os@, cs@) && cache_step(
                *old(cache),
                *final(cache),
                age,
                list_os,
                os,
            ),
{
    let os = get_or_load_printers(cache, list_os);
    let ghost os_view = os;
    let cs = custom();
    let r = merge_app_printers(os, &cs);
    proof {
        assert(merged_list(r@, os_view@, cs@));
    }
    r
}

// ───────────────────────── test prints ─────────────────────────

/// The short test ticket of app printers: `ESC @`, a rule of `=` (32 or 48
/// columns), the title, a rule, `GS V B`.
pub open spec fn app_test_ticket(size: Seq<char>) -> Seq<u8> {
    let w: nat = if size == "58mm"@ { 32 } else { 48 };
    seq![0x1bu8, 0x40u8] + Seq::new(w, |_i: int| 0x3du8) + "\n  PAGINA DE PRUEBA\n".spec_bytes()
        + Seq::new(w, |_i: int| 0x3du8) + seq![0x0au8, 0x1du8, 0x56u8, 0x42u8]
}

pub fn build_test_escpos(size: &str) -> (d: Vec<u8>)
    ensures
        d@ == app_test_ticket(size@),
{
    let width: usize = if str_eq(size, "58mm") {
        32
    } else {
        48
    };
    let mut d: Vec<u8> = Vec::new();
    push_all(&mut d, &[0x1b, 0x40]);
    push_repeat(&mut d, 0x3d, width);
    push_all(&mut d, "\n  PAGINA DE PRUEBA\n".as_bytes());
    push_repeat(&mut d, 0x3d, width);
    push_all(&mut d, &[0x0a, 0x1d, 0x56, 0x42]);
    assert(d@ =~= app_test_ticket(size@));
    d
}

/// The host part of an `IP:PORT` address.
pub fn address_host(address: &str) -> (r: String)
    ensures
        r@ == before_sep(address@, ':'),
{
    let (head, _) = split_once(&chars_of(address), ':');
    string_of(&head)
}

/// Where a test print goes.
pub enum PrintTestRoute {
    /// A queue of the system: the strategy prints its test page.
    OsQueue,
    /// A network printer: after checking that `ip:9100` answers, send the
    /// bytes there.
    Network { ip: String, payload: Vec<u8> },
    /// A USB printer of the app: resolve the saved port against the
    /// present ones, then write the bytes to it.
    UsbApp { saved_port: String, payload: Vec<u8> },
    /// A USB printer in system mode: check that the port is present, then
    /// let the strategy print the PDF test page on it.
    UsbSystem { port: String },
}

pub open spec fn not_found_text(name: Seq<char>) -> Seq<char> {
    "La impresora '"@ + name + "' no existe en el SO ni en la app."@
}

/// Chooses how to print the test ticket on `printer_name`: a queue of the
/// system when `is_os_queue`, else the registered printer `custom` (the
/// database row of that alias, if any), by its connection type.
pub fn print_test_route(printer_name: &str, size: &str, is_os_queue: bool, custom: Option<
    &CustomPrinter,
>) -> (r: Result<PrintTestRoute, String>)
    ensures
        is_os_queue ==> r matches Ok(PrintTestRoute::OsQueue),
        !is_os_queue && custom is None ==> (r matches Err(e) && e@ == not_found_text(printer_name@)),
        !is_os_queue ==> (custom matches Some(cp) ==> {
            let ct = cp.connection_type@;
            let host = before_sep(cp.address@, ':');
            if ct == "network"@ {
                if regex_match(ipv4_pattern(), trim(host)) == Some(true) {
                    r matches Ok(PrintTestRoute::Network { ip, payload }) && ip@ == host
                        && payload@ == app_test_ticket(size@)
                } else {
                    r matches Err(e) && e@ == "IP inválida: '"@ + host + "'"@
                }
            } else if ct == "usb_app"@ {
                r matches Ok(PrintTestRoute::UsbApp { saved_port, payload }) && saved_port@
                    == cp.address@ && payload@ == app_test_ticket(size@)
            } else if ct == "usb_system"@ || ct == "usb_direct"@ {
                r matches Ok(PrintTestRoute::UsbSystem { port }) && port@ == cp.address@
            } else {
                r matches Err(e) && e@ == "Tipo de conexión no soportado: "@ + ct
            }
        }),
{
    if is_os_queue {
        return Ok(PrintTestRoute::OsQueue);
    }
    let cp = match custom {
        Some(cp) => cp,
        None => {
            return Err(concat3("La impresora '", printer_name, "' no existe en el SO ni en la app."));
        },
    };
    let ct = cp.connection_type.as_str();
    if str_eq(ct, "network") {
        let ip = address_host(cp.address.as_str());
        match guard_valid_ip(ip.as_str()) {
            Ok(()) => Ok(PrintTestRoute::Network { ip, payload: build_test_escpos(size) }),
            Err(e) => Err(crate::guards::guard_message(e)),
        }
    } else if str_eq(ct, "usb_app") {
        Ok(PrintTestRoute::UsbApp { saved_port: cp.address.clone(), payload: build_test_escpos(size) })
    } else if str_eq(ct, "usb_system") || str_eq(ct, "usb_direct") {
        Ok(PrintTestRoute::UsbSystem { port: cp.address.clone() })
    } else {
        Err(concat2("Tipo de conexión no soportado: ", ct))
    }
}

/// The port to write to for a USB printer of the app, and whether the saved
/// port has to be updated to it; `None` when no port is available.
pub fn app_usb_port(saved_port: &str, ports: &Vec<String>) -> (r: Option<(String, bool)>)
    ensures
        match resolved_port(saved_port@, texts(ports@)) {
            Some(p) => r matches Some((q, changed)) && q@ == p && changed == (p != saved_port@),
            None => r is None,
        },
{
    match resolve_usb_port(saved_port, ports) {
        Some(p) => {
            let changed = !str_eq(p.as_str(), saved_port);
            Some((p, changed))
        },
        None => None,
    }
}

/// How the internal PDF test page is printed.
pub enum PdfTestRoute {
    /// Through the queue of the system.
    OsQueue,
    /// Rendered to ESC/POS for a printer of the app.
    AppEscPos,
}

pub fn print_test_pdf_route(printer_name: &str, is_os_queue: bool, custom: Option<&CustomPrinter>) -> (r:
    Result<PdfTestRoute, String>)
    ensures
        is_os_queue ==> r matches Ok(PdfTestRoute::OsQueue),
        !is_os_queue && custom is None ==> (r matches Err(e) && e@ == not_found_text(printer_name@)),
        !is_os_queue ==> (custom matches Some(cp) ==> {
            let ct = cp.connection_type@;
            if ct == "network"@ || ct == "usb_app"@ {
                r matches Ok(PdfTestRoute::AppEscPos)
            } else {
                r matches Err(e) && e@ == "Tipo de conexión no soportado para PDF: "@ + ct
            }
        }),
{
    if is_os_queue {
        return Ok(PdfTestRoute::OsQueue);
    }
    match custom {
        None => Err(concat3("La impresora '", printer_name, "' no existe en el SO ni en la app.")),
        Some(cp) => {
            let ct = cp.connection_type.as_str();
            if str_eq(ct, "network") || str_eq(ct, "usb_app") {
                Ok(PdfTestRoute::AppEscPos)
            } else {
                Err(concat2("Tipo de conexión no soportado para PDF: ", ct))
            }
        },
    }
}

/// Whether a PDF job for this printer goes through ESC/POS rendering (a
/// network or USB printer of the app) rather than the system queue.
pub fn uses_app_escpos(custom: Option<&CustomPrinter>) -> (b: bool)
    ensures
        b == (custom matches Some(cp) && (cp.connection_type@ == "network"@
            || cp.connection_type@ == "usb_app"@)),
{
    match custom {
        Some(cp) => str_eq(cp.connection_type.as_str(), "network") || str_eq(
            cp.connection_type.as_str(),
            "usb_app",
        ),
        None => false,
    }
}

/// Where ESC/POS bytes of a printer of the app go.
pub enum AppTarget {
    Tcp { ip: String },
    Usb { port: String, update_saved: bool },
}

/// The destination of ESC/POS bytes for a printer of the app; for a USB
/// printer the ports present now are read (`ports`).
pub fn app_escpos_target<F: FnOnce() -> Vec<String>>(cp: &CustomPrinter, ports: F) -> (r: Result<AppTarget, String>)
    requires
        ports.requires(()),
    ensures
        cp.connection_type@ == "network"@ ==> (r matches Ok(AppTarget::Tcp { ip }) && ip@ == before_sep(
            cp.address@,
            ':',
        )),
        cp.connection_type@ == "usb_app"@ ==> exists|list: Vec<String>|
            #[trigger] ports.ensures((), list) && usb_target(cp.address@, texts(list@), r),
        cp.connection_type@ != "network"@ && cp.connection_type@ != "usb_app"@ ==> err_text_target(
            r,
            "Tipo de conexión no soportado para App: "@ + cp.connection_type@,
        ),
{
    proof {
        reveal_strlit("network");
        reveal_strlit("usb_app");
        assert("network"@[0] != "usb_app"@[0]);
    }
    let ct = cp.connection_type.as_str();
    if str_eq(ct, "network") {
        Ok(AppTarget::Tcp { ip: address_host(cp.address.as_str()) })
    } else if str_eq(ct, "usb_app") {
        let list = ports();
        match app_usb_port(cp.address.as_str(), &list) {
            Some((port, update_saved)) => Ok(AppTarget::Usb { port, update_saved }),
            None => Err(string_of(&chars_of("No se encontró puerto USB disponible"))),
        }
    } else {
        Err(concat2("Tipo de conexión no soportado para App: ", ct))
    }
}

/// `r` is an error with the text `t`.
pub open spec fn err_text_target(r: Result<AppTarget, String>, t: Seq<char>) -> bool {
    r matches Err(e) && e@ == t
}

/// The USB destination of a printer saved on port `saved`, or the error
/// when no port is available.
pub open spec fn usb_target(saved: Seq<char>, ports: Seq<Seq<char>>, r: Result<AppTarget, String>) -> bool {
    match resolved_port(saved, ports) {
        Some(p) => r matches Ok(AppTarget::Usb { port, update_saved }) && port@ == p && update_saved == (p
            != saved),
        None => err_text_target(r, "No se encontró puerto USB disponible"@),
    }
}

// ───────────────────────── registration ─────────────────────────

/// The address stored for a network printer: `IP:9100`.
pub fn network_printer_address(ip: &str) -> (r: String)
    ensures
        r@ == ip@ + ":9100"@,
{
    concat2(ip, ":9100")
}

/// How a USB printer is registered.
#[derive(Clone, Copy, Debug, PartialEq, Eq)]
pub enum UsbMode {
    /// A queue of the system is installed.
    System,
    /// Only the app knows it; the port is resolved at each print.
    App,
}

pub fn usb_mode(mode: &str) -> (r: Result<UsbMode, String>)
    ensures
        mode@ == "system"@ ==> r == Ok::<UsbMode, String>(UsbMode::System),
        mode@ == "app"@ ==> r == Ok::<UsbMode, String>(UsbMode::App),
        mode@ != "system"@ && mode@ != "app"@ ==> (r matches Err(e) && e@
            == "Modo USB inválido. Usa 'system' o 'app'."@),
{
    proof {
        reveal_strlit("system");
        reveal_strlit("app");
        assert("system"@.len() != "app"@.len());
    }
    if str_eq(mode, "system") {
        Ok(UsbMode::System)
    } else if str_eq(mode, "app") {
        Ok(UsbMode::App)
    } else {
        Err(string_of(&chars_of("Modo USB inválido. Usa 'system' o 'app'.")))
    }
}

pub fn usb_app_registered_message(name: &str) -> (r: String)
    ensures
        r@ == "Impresora USB '"@ + name@ + "' registrada en modo app."@,
{
    concat3("Impresora USB '", name, "' registrada en modo app.")
}

pub fn printer_removed_message(alias: &str) -> (r: String)
    ensures
        r@ == "Impresora '"@ + alias@ + "' eliminada"@,
{
    concat3("Impresora '", alias, "' eliminada")
}

// ───────────────────────── operations ─────────────────────────
//
// Each operation checks its guards in order and stops at the first that
// fails; the work on the machine (listing queues, probing a port, reading
// or writing the database, running the strategy) is handed in as closures,
// called only when the operation gets that far.

pub open spec fn blank_name_error() -> Seq<char> {
    "El nombre no puede estar vacío."@
}

pub open spec fn invalid_ip_error(ip: Seq<char>) -> Seq<char> {
    "IP inválida: '"@ + ip + "'"@
}

pub open spec fn unknown_queue_error(q: Seq<char>) -> Seq<char> {
    "La impresora '"@ + q + "' no existe en el SO."@
}

pub open spec fn duplicate_alias_error(a: Seq<char>) -> Seq<char> {
    "Ya existe una impresora con el alias '"@ + a + "'."@
}

pub open spec fn missing_port_error(p: Seq<char>) -> Seq<char> {
    "El puerto '"@ + p + "' no existe o no está disponible."@
}

/// The text passes the IPv4 guard.
pub open spec fn valid_ip_text(ip: Seq<char>) -> bool {
    regex_match(ipv4_pattern(), trim(ip)) == Some(true)
}

/// A step that may fail: its error ends the operation, else `rest` holds.
pub open spec fn after_step(step: Result<(), String>, r: Result<String, String>, rest: bool) -> bool {
    match step {
        Ok(()) => rest,
        Err(e) => r == Err::<String, String>(e),
    }
}

/// `r` is whatever the final action returned.
pub open spec fn ends_with_action<F: FnOnce() -> Result<String, String>>(action: F, r: Result<String, String>) -> bool {
    exists|res: Result<String, String>| #[trigger] action.ensures((), res) && r == res
}

/// Renames a queue of the system: the new name must not be blank and the
/// queue must be listed by `list_os`; then `rename` runs.
pub fn rename_printer_blocking<L: FnOnce() -> Vec<PrinterInfo>, R: FnOnce() -> Result<String, String>>(
    printer_name: &str,
    new_name: &str,
    list_os: L,
    rename: R,
) -> (r: Result<String, String>)
    requires
        list_os.requires(()),
        rename.requires(()),
    ensures
        all_white_space(new_name@) ==> err_text(r, blank_name_error()),
        !all_white_space(new_name@) ==> exists|list: Vec<PrinterInfo>|
            #[trigger] list_os.ensures((), list) && (if has_queue(list@, printer_name@) {
                ends_with_action(rename, r)
            } else {
                err_text(r, unknown_queue_error(printer_name@))
            }),
{
    if let Err(e) = guard_non_empty_name(new_name) {
        return Err(guard_message(e));
    }
    let list = list_os();
    if let Err(e) = guard_printer_exists_os(printer_name, &list) {
        return Err(guard_message(e));
    }
    rename()
}

/// Clears the queue of a printer of the system, once it is listed by
/// `list_os`.
pub fn clear_print_queue_blocking<L: FnOnce() -> Vec<PrinterInfo>, C: FnOnce() -> Result<String, String>>(
    printer_name: &str,
    list_os: L,
    clear: C,
) -> (r: Result<String, String>)
    requires
        list_os.requires(()),
        clear.requires(()),
    ensures
        exists|list: Vec<PrinterInfo>|
            #[trigger] list_os.ensures((), list) && (if has_queue(list@, printer_name@) {
                ends_with_action(clear, r)
            } else {
                err_text(r, unknown_queue_error(printer_name@))
            }),
{
    let list = list_os();
    if let Err(e) = guard_printer_exists_os(printer_name, &list) {
        return Err(guard_message(e));
    }
    clear()
}

/// After the name and address guards of a network printer: the alias must
/// be new; the row `IP:9100` is stored; then the queue is installed.
pub open spec fn network_registered<
    A: FnOnce() -> Vec<String>,
    I: FnOnce(String, String, String) -> Result<(), String>,
    N: FnOnce() -> Result<String, String>,
>(name: Seq<char>, ip: Seq<char>, aliases: A, insert: I, install: N, r: Result<String, String>) -> bool {
    exists|al: Vec<String>|
        #[trigger] aliases.ensures((), al) && (if texts(al@).contains(name) {
            err_text(r, duplicate_alias_error(name))
        } else {
            row_stored(insert, name, "network"@, ip + ":9100"@, r, ends_with_action(install, r))
        })
}

/// The row `(alias, connection_type, address)` is handed to `insert`; its
/// error ends the operation, else `rest` holds.
pub open spec fn row_stored<I: FnOnce(String, String, String) -> Result<(), String>>(
    insert: I,
    alias: Seq<char>,
    connection_type: Seq<char>,
    address: Seq<char>,
    r: Result<String, String>,
    rest: bool,
) -> bool {
    exists|a: String, t: String, p: String, ins: Result<(), String>|
        #[trigger] insert.ensures((a, t, p), ins) && a@ == alias && t@ == connection_type && p@
            == address && after_step(ins, r, rest)
}

/// Registers a network printer: the name must not be blank, the address
/// must look like IPv4, port 9100 must answer (`reachable`), the alias must
/// be new (`aliases`); then the row `(name, "network", IP:9100)` is stored
/// (`insert`) and the queue installed (`install`).
pub fn add_network_printer_blocking<
    P: FnOnce() -> Result<(), String>,
    A: FnOnce() -> Vec<String>,
    I: FnOnce(String, String, String) -> Result<(), String>,
    N: FnOnce() -> Result<String, String>,
>(ip: &str, name: &str, reachable: P, aliases: A, insert: I, install: N) -> (r: Result<String, String>)
    requires
        reachable.requires(()),
        aliases.requires(()),
        forall|a: String, t: String, p: String| insert.requires((a, t, p)),
        install.requires(()),
    ensures
        all_white_space(name@) ==> err_text(r, blank_name_error()),
        !all_white_space(name@) && !valid_ip_text(ip@) ==> err_text(r, invalid_ip_error(ip@)),
        !all_white_space(name@) && valid_ip_text(ip@) ==> exists|reach: Result<(), String>|
            #[trigger] reachable.ensures((), reach) && after_step(
                reach,
                r,
                network_registered(name@, ip@, aliases, insert, install, r),
            ),
{
    if let Err(e) = guard_non_empty_name(name) {
        return Err(guard_message(e));
    }
    if let Err(e) = guard_valid_ip(ip) {
        return Err(guard_message(e));
    }
    let reach = reachable();
    if let Err(e) = reach {
        return Err(e);
    }
    let al = aliases();
    if let Err(e) = guard_alias_unique(name, &al) {
        return Err(guard_message(e));
    }
    let addr = network_printer_address(ip);
    let ins = insert(string_of(&chars_of(name)), string_of(&chars_of("network")), addr);
    if let Err(e) = ins {
        return Err(e);
    }
    let res = install();
    proof {
        assert(ends_with_action(install, res));
    }
    res
}

/// After the name and port guards of a USB printer: the alias must be new;
/// then in `system` mode the queue is installed, in `app` mode the row
/// `(name, "usb_app", port)` is stored and a confirmation returned; any
/// other mode is refused.
pub open spec fn usb_registered<
    U: FnOnce() -> Result<String, String>,
    A: FnOnce() -> Vec<String>,
    I: FnOnce(String, String, String) -> Result<(), String>,
>(name: Seq<char>, port: Seq<char>, mode: Seq<char>, install_usb: U, aliases: A, insert: I, r: Result<String, String>) -> bool {
    exists|al: Vec<String>|
        #[trigger] aliases.ensures((), al) && (if texts(al@).contains(name) {
            err_text(r, duplicate_alias_error(name))
        } else if mode == "system"@ {
            ends_with_action(install_usb, r)
        } else if mode == "app"@ {
            row_stored(
                insert,
                name,
                "usb_app"@,
                port,
                r,
                ok_text(r, "Impresora USB '"@ + name + "' registrada en modo app."@),
            )
        } else {
            err_text(r, "Modo USB inválido. Usa 'system' o 'app'."@)
        })
}

/// The port guard with the port list read only when needed: a device
/// interface path passes without it.
pub open spec fn port_checked<Pt: FnOnce() -> Vec<String>>(port: Seq<char>, ports: Pt, r: Result<String, String>, rest: bool) -> bool {
    if is_device_interface_path(port) {
        rest
    } else {
        exists|list: Vec<String>|
            #[trigger] ports.ensures((), list) && (if texts(list@).contains(port) {
                rest
            } else {
                err_text(r, missing_port_error(port))
            })
    }
}

fn check_port<Pt: FnOnce() -> Vec<String>>(port: &str, ports: Pt) -> (r: Result<(), String>)
    requires
        ports.requires(()),
    ensures
        is_device_interface_path(port@) ==> r is Ok,
        !is_device_interface_path(port@) ==> exists|list: Vec<String>|
            #[trigger] ports.ensures((), list) && (if texts(list@).contains(port@) {
                r is Ok
            } else {
                r matches Err(e) && e@ == missing_port_error(port@)
            }),
{
    if starts_with(&chars_of(port), &chars_of("\\\\?\\")) {
        return Ok(());
    }
    let list = ports();
    match guard_usb_port_exists(port, &list) {
        Ok(()) => Ok(()),
        Err(e) => Err(guard_message(e)),
    }
}

/// Registers a USB printer: the name must not be blank and the port present
/// (`ports`, unless it is a device interface path); then by `mode` (see
/// [`usb_registered`]).
pub fn add_usb_printer_blocking<
    Pt: FnOnce() -> Vec<String>,
    U: FnOnce() -> Result<String, String>,
    A: FnOnce() -> Vec<String>,
    I: FnOnce(String, String, String) -> Result<(), String>,
>(port: &str, name: &str, mode: &str, ports: Pt, install_usb: U, aliases: A, insert: I) -> (r: Result<
    String,
    String,
>)
    requires
        ports.requires(()),
        install_usb.requires(()),
        aliases.requires(()),
        forall|a: String, t: String, p: String| insert.requires((a, t, p)),
    ensures
        all_white_space(name@) ==> err_text(r, blank_name_error()),
        !all_white_space(name@) ==> port_checked(
            port@,
            ports,
            r,
            usb_registered(name@, port@, mode@, install_usb, aliases, insert, r),
        ),
{
    if let Err(e) = guard_non_empty_name(name) {
        return Err(guard_message(e));
    }
    if let Err(e) = check_port(port, ports) {
        return Err(e);
    }
    let al = aliases();
    if let Err(e) = guard_alias_unique(name, &al) {
        return Err(guard_message(e));
    }
    if str_eq(mode, "system") {
        let res = install_usb();
        proof {
            assert(ends_with_action(install_usb, res));
        }
        res
    } else if str_eq(mode, "app") {
        let ins = insert(string_of(&chars_of(name)), string_of(&chars_of("usb_app")), string_of(&chars_of(port)));
        if let Err(e) = ins {
            return Err(e);
        }
        Ok(usb_app_registered_message(name))
    } else {
        Err(string_of(&chars_of("Modo USB inválido. Usa 'system' o 'app'.")))
    }
}

/// Prints the test page on a USB port once the port is present (`ports`,
/// unless it is a device interface path).
pub fn test_usb_printer_blocking<Pt: FnOnce() -> Vec<String>, T: FnOnce() -> Result<String, String>>(
    port: &str,
    ports: Pt,
    test: T,
) -> (r: Result<String, String>)
    requires
        ports.requires(()),
        test.requires(()),
    ensures
        port_checked(port@, ports, r, ends_with_action(test, r)),
{
    if let Err(e) = check_port(port, ports) {
        return Err(e);
    }
    let res = test();
    proof {
        assert(ends_with_action(test, res));
    }
    res
}

/// Prints a test page on `ip:9100` without registering it: the address
/// must look like IPv4 and the port answer (`reachable`); then `send`.
pub fn print_test_tcp_blocking<P: FnOnce() -> Result<(), String>, S: FnOnce() -> Result<String, String>>(
    ip: &str,
    reachable: P,
    send: S,
) -> (r: Result<String, String>)
    requires
        reachable.requires(()),
        send.requires(()),
    ensures
        !valid_ip_text(ip@) ==> err_text(r, invalid_ip_error(ip@)),
        valid_ip_text(ip@) ==> exists|reach: Result<(), String>|
            #[trigger] reachable.ensures((), reach) && after_step(reach, r, ends_with_action(send, r)),
{
    if let Err(e) = guard_valid_ip(ip) {
        return Err(guard_message(e));
    }
    let reach = reachable();
    if let Err(e) = reach {
        return Err(e);
    }
    let res = send();
    proof {
        assert(ends_with_action(send, res));
    }
    res
}

/// Deletes a registered printer: its alias is handed to `delete`, which
/// removes the row; then the removal is confirmed.
pub fn remove_custom_printer_blocking<D: FnOnce(String) -> Result<(), String>>(alias: &str, delete: D) -> (r: Result<
    String,
    String,
>)
    requires
        forall|a: String| delete.requires((a,)),
    ensures
        exists|a: String, del: Result<(), String>|
            #[trigger] delete.ensures((a,), del) && a@ == alias@ && after_step(
                del,
                r,
                ok_text(r, "Impresora '"@ + alias@ + "' eliminada"@),
            ),
{
    let del = delete(string_of(&chars_of(alias)));
    if let Err(e) = del {
        return Err(e);
    }
    Ok(printer_removed_message(alias))
}

/// The port of a USB printer of the app for a test print, and whether the
/// saved port must be updated to it.
pub fn usb_app_test_port(saved_port: &str, ports: &Vec<String>) -> (r: Result<(String, bool), String>)
    ensures
        match resolved_port(saved_port@, texts(ports@)) {
            Some(p) => r matches Ok((q, changed)) && q@ == p && changed == (p != saved_port@),
            None => r matches Err(e) && e@
                == "No se encontró ningún puerto USB disponible para esta impresora."@,
        },
{
    match app_usb_port(saved_port, ports) {
        Some(x) => Ok(x),
        None => Err(string_of(&chars_of("No se encontró ningún puerto USB disponible para esta impresora."))),
    }
}

/// The answer of a PDF job handed to a CUPS queue (`lp`).
pub fn pdf_sent_message(printer_name: &str, width: &str) -> (r: String)
    ensures
        r@ == "PDF enviado a '"@ + printer_name@ + "' ["@ + width@ + "]"@,
{
    crate::text::concat5("PDF enviado a '", printer_name, "' [", width, "]")
}

/// The answer of a PDF job printed as ESC/POS through a Windows queue.
pub fn pdf_printed_message(printer_name: &str, width: &str) -> (r: String)
    ensures
        r@ == "PDF impreso en '"@ + printer_name@ + "' ["@ + width@ + "]"@,
{
    crate::text::concat5("PDF impreso en '", printer_name, "' [", width, "]")
}

} // verus!
