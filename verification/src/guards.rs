//! Guards: the preconditions checked before a printer operation runs. Each
//! returns `Ok(())` or a validation error whose text is shown to the user.
//!
//! Guards that depend on the state of the machine (the printer queues, the
//! registered aliases, the serial ports) take that state as an argument.

use vstd::prelude::*;

use crate::model::{texts, PrinterInfo};
use crate::serial::is_device_interface_path;
use crate::text::{concat3, chars_of, has_prefix, is_blank, starts_with, str_eq, string_of, trim, trim_chars, all_white_space};

verus! {

/// A failed guard.
#[derive(Debug, PartialEq, Eq)]
pub enum GuardError {
    Validation(String),
}

impl GuardError {
    pub open spec fn text(self) -> Seq<char> {
        match self {
            GuardError::Validation(m) => m@,
        }
    }
}

impl From<GuardError> for String {
    fn from(e: GuardError) -> (r: String) {
        match e {
            GuardError::Validation(m) => m,
        }
    }
}

impl vstd::std_specs::convert::FromSpecImpl<GuardError> for String {
    open spec fn obeys_from_spec() -> bool {
        true
    }

    open spec fn from_spec(e: GuardError) -> String {
        match e {
            GuardError::Validation(m) => m,
        }
    }
}

/// The message of a failed guard.
pub fn guard_message(e: GuardError) -> (r: String)
    ensures
        r@ == e.text(),
{
    match e {
        GuardError::Validation(m) => m,
    }
}

// ───────────────────────── name ─────────────────────────

/// The alias or name may be neither empty nor whitespace only.
pub fn guard_non_empty_name(name: &str) -> (r: Result<(), GuardError>)
    ensures
        r is Ok <==> !all_white_space(name@),
        r matches Err(e) ==> e.text() == "El nombre no puede estar vacío."@,
{
    if is_blank(name) {
        Err(GuardError::Validation(string_of(&chars_of("El nombre no puede estar vacío."))))
    } else {
        Ok(())
    }
}

// ───────────────────────── IPv4 address ─────────────────────────

/// What `regex::Regex::new(pattern)` followed by `is_match(haystack)`
/// returns: `None` when the pattern does not compile.
pub uninterp spec fn regex_match(pattern: Seq<char>, haystack: Seq<char>) -> Option<bool>;

/// Compiles `pattern` with `regex::Regex::new` and tests it on `haystack`
/// with `Regex::is_match`. The claim is only that the result is a function of
/// the two texts; the regex syntax and its Unicode classes are the crate's.
#[verifier::external_body]
fn regex_is_match(pattern: &str, haystack: &str) -> (r: Option<bool>)
    ensures
        r == regex_match(pattern@, haystack@),
{
    match regex::Regex::new(pattern) {
        Ok(re) => Some(re.is_match(haystack)),
        Err(_) => None,
    }
}

/// Four groups of one to three digits separated by dots, the whole text.
pub open spec fn ipv4_pattern() -> Seq<char> {
    "^\\d{1,3}(\\.\\d{1,3}){3}$"@
}

/// The answer of the IPv4 guard once the pattern has been tested on the
/// trimmed text (`matched`, `None` when the pattern could not be compiled).
pub fn ip_guard_result(ip: &str, matched: Option<bool>) -> (r: Result<(), GuardError>)
    ensures
        r is Ok <==> matched == Some(true),
        r matches Err(e) ==> e.text() == "IP inválida: '"@ + ip@ + "'"@,
{
    match matched {
        Some(true) => Ok(()),
        _ => Err(GuardError::Validation(concat3("IP inválida: '", ip, "'"))),
    }
}

/// The text, trimmed, must look like an IPv4 address.
pub fn guard_valid_ip(ip: &str) -> (r: Result<(), GuardError>)
    ensures
        r is Ok <==> regex_match(ipv4_pattern(), trim(ip@)) == Some(true),
        r matches Err(e) ==> e.text() == "IP inválida: '"@ + ip@ + "'"@,
{
    let trimmed = string_of(&trim_chars(&chars_of(ip)));
    let matched = regex_is_match("^\\d{1,3}(\\.\\d{1,3}){3}$", trimmed.as_str());
    ip_guard_result(ip, matched)
}

// ───────────────────────── printer queue ─────────────────────────

pub open spec fn has_queue(printers: Seq<PrinterInfo>, queue_name: Seq<char>) -> bool {
    exists|i: int| 0 <= i < printers.len() && (#[trigger] printers[i]).queue_name@ == queue_name
}

/// The printer must be one of the operating system's queues (`printers` is
/// the current listing).
pub fn guard_printer_exists_os(queue_name: &str, printers: &Vec<PrinterInfo>) -> (r: Result<
    (),
    GuardError,
>)
    ensures
        r is Ok <==> has_queue(printers@, queue_name@),
        r matches Err(e) ==> e.text() == "La impresora '"@ + queue_name@ + "' no existe en el SO."@,
{
    let mut i: usize = 0;
    while i < printers.len()
        invariant
            i <= printers@.len(),
            forall|k: int| 0 <= k < i ==> (#[trigger] printers@[k]).queue_name@ != queue_name@,
        decreases printers@.len() - i,
    {
        if str_eq(printers[i].queue_name.as_str(), queue_name) {
            return Ok(());
        }
        i += 1;
    }
    Err(GuardError::Validation(concat3("La impresora '", queue_name, "' no existe en el SO.")))
}

// ───────────────────────── alias ─────────────────────────

/// The alias must not be registered yet (`aliases` are the registered ones).
pub fn guard_alias_unique(alias: &str, aliases: &Vec<String>) -> (r: Result<(), GuardError>)
    ensures
        r is Ok <==> !texts(aliases@).contains(alias@),
        r matches Err(e) ==> e.text() == "Ya existe una impresora con el alias '"@ + alias@ + "'."@,
{
    let mut i: usize = 0;
    while i < aliases.len()
        invariant
            i <= aliases@.len(),
            forall|k: int| 0 <= k < i ==> #[trigger] texts(aliases@)[k] != alias@,
        decreases aliases@.len() - i,
    {
        if str_eq(aliases[i].as_str(), alias) {
            assert(texts(aliases@)[i as int] == alias@);
            return Err(
                GuardError::Validation(concat3("Ya existe una impresora con el alias '", alias, "'.")),
            );
        }
        i += 1;
    }
    Ok(())
}

// ───────────────────────── serial port ─────────────────────────

/// The port must be present (`ports` are the available ones); Windows
/// device-interface paths (`\\?\USB#…`) open directly and always pass.
pub fn guard_usb_port_exists(port: &str, ports: &Vec<String>) -> (r: Result<(), GuardError>)
    ensures
        r is Ok <==> is_device_interface_path(port@) || texts(ports@).contains(port@),
        r matches Err(e) ==> e.text() == "El puerto '"@ + port@ + "' no existe o no está disponible."@,
{
    let p = chars_of(port);
    if starts_with(&p, &chars_of("\\\\?\\")) {
        return Ok(());
    }
    let mut i: usize = 0;
    while i < ports.len()
        invariant
            i <= ports@.len(),
            forall|k: int| 0 <= k < i ==> #[trigger] texts(ports@)[k] != port@,
        decreases ports@.len() - i,
    {
        if str_eq(ports[i].as_str(), port) {
            assert(texts(ports@)[i as int] == port@);
            return Ok(());
        }
        i += 1;
    }
    Err(GuardError::Validation(concat3("El puerto '", port, "' no existe o no está disponible.")))
}

} // verus!
