use printer_monitor::serial::usb_devices_json_array;
use printer_monitor::guards::{
    ip_guard_result, guard_alias_unique, guard_message, guard_non_empty_name, guard_printer_exists_os,
    guard_usb_port_exists, guard_valid_ip, GuardError,
};
use printer_monitor::model::PrinterInfo;
use printer_monitor::serial::{
    list_contains, parse_usb_print_ports, resolve_usb_port, sorted_unique_ports, text_less,
    usb_devices_from_ports, usb_lp_candidates,
};

fn s(v: &[&str]) -> Vec<String> {
    v.iter().map(|x| x.to_string()).collect()
}

fn message(r: Result<(), GuardError>) -> String {
    guard_message(r.err().expect("an error"))
}

fn os_queue(name: &str) -> PrinterInfo {
    PrinterInfo {
        name: name.to_string(),
        queue_name: name.to_string(),
        is_default: false,
        status: "Disponible".to_string(),
        source: "os".to_string(),
        connection_type: "os".to_string(),
        address: None,
    }
}

#[test]
fn empty_or_blank_names_are_refused() {
    assert_eq!(message(guard_non_empty_name("")), "El nombre no puede estar vacío.");
    assert_eq!(message(guard_non_empty_name("  \t\n")), "El nombre no puede estar vacío.");
    assert!(guard_non_empty_name(" Caja ").is_ok());
}

#[test]
fn ipv4_shape_is_checked_after_trimming() {
    assert!(guard_valid_ip("192.168.1.10").is_ok());
    assert!(guard_valid_ip("  10.0.0.1 \n").is_ok());
    // Only the shape is checked, not the range of each part.
    assert!(guard_valid_ip("999.1.1.1").is_ok());
    assert_eq!(message(guard_valid_ip("192.168.1")), "IP inválida: '192.168.1'");
    assert_eq!(message(guard_valid_ip("1.2.3.4.5")), "IP inválida: '1.2.3.4.5'");
    assert_eq!(message(guard_valid_ip("a.b.c.d")), "IP inválida: 'a.b.c.d'");
    assert_eq!(message(guard_valid_ip(" 1.2.3 ")), "IP inválida: ' 1.2.3 '");
}

#[test]
fn queue_must_exist_in_the_system() {
    let printers = vec![os_queue("HP_LaserJet"), os_queue("Zebra")];
    assert!(guard_printer_exists_os("Zebra", &printers).is_ok());
    assert_eq!(
        message(guard_printer_exists_os("Epson", &printers)),
        "La impresora 'Epson' no existe en el SO."
    );
    assert!(guard_printer_exists_os("Zebra", &vec![]).is_err());
}

#[test]
fn alias_must_be_new() {
    let aliases = s(&["Caja", "Cocina"]);
    assert!(guard_alias_unique("Barra", &aliases).is_ok());
    assert_eq!(
        message(guard_alias_unique("Cocina", &aliases)),
        "Ya existe una impresora con el alias 'Cocina'."
    );
    // Comparison is exact.
    assert!(guard_alias_unique("cocina", &aliases).is_ok());
}

#[test]
fn port_must_be_present_unless_device_interface() {
    let ports = s(&["COM3", "USB001"]);
    assert!(guard_usb_port_exists("COM3", &ports).is_ok());
    assert!(guard_usb_port_exists("\\\\?\\USB#VID_0416&PID_5011", &vec![]).is_ok());
    assert_eq!(
        message(guard_usb_port_exists("COM4", &ports)),
        "El puerto 'COM4' no existe o no está disponible."
    );
}

#[test]
fn guard_error_converts_to_its_message() {
    let e = GuardError::Validation("mensaje".to_string());
    assert_eq!(String::from(e), "mensaje");
}

#[test]
fn port_list_is_sorted_and_deduplicated() {
    let r = sorted_unique_ports(&s(&["COM3", "/dev/ttyUSB0", "COM3", "COM10", "COM1"]));
    assert_eq!(r, s(&["/dev/ttyUSB0", "COM1", "COM10", "COM3"]));
    assert_eq!(sorted_unique_ports(&vec![]), Vec::<String>::new());
    assert_eq!(sorted_unique_ports(&s(&["b", "a", "b", "a"])), s(&["a", "b"]));
}

#[test]
fn text_order_is_by_code_point() {
    let a: Vec<char> = "COM1".chars().collect();
    let b: Vec<char> = "COM10".chars().collect();
    let c: Vec<char> = "COM2".chars().collect();
    assert!(text_less(&a, &b));
    assert!(text_less(&b, &c));
    assert!(!text_less(&c, &a));
    assert!(!text_less(&a, &a));
}

#[test]
fn usb_devices_leave_out_com_ports() {
    let r = usb_devices_from_ports(&s(&["COM1", "com2", "/dev/usb/lp0", "/dev/ttyUSB0"]));
    assert_eq!(r.len(), 2);
    assert_eq!(r[0].port, "/dev/usb/lp0");
    assert_eq!(r[0].display_name, "/dev/usb/lp0");
    assert_eq!(r[1].port, "/dev/ttyUSB0");
}

#[test]
fn resolve_device_interface_and_present_port() {
    assert_eq!(resolve_usb_port("\\\\?\\USB#VID_1", &vec![]), Some("\\\\?\\USB#VID_1".to_string()));
    assert_eq!(resolve_usb_port("COM3", &s(&["COM1", "COM3"])), Some("COM3".to_string()));
}

#[test]
fn resolve_by_port_family() {
    let ports = s(&["/dev/usb/lp1", "COM1", "USB001", "USB002"]);
    assert_eq!(resolve_usb_port("USB007", &ports), Some("USB001".to_string()));
    assert_eq!(resolve_usb_port("com5", &ports), Some("COM1".to_string()));
    assert_eq!(resolve_usb_port("/dev/usb/lp0", &ports), Some("/dev/usb/lp1".to_string()));
}

#[test]
fn resolve_family_without_match_gives_none() {
    assert_eq!(resolve_usb_port("USB002", &s(&["COM1"])), None);
    assert_eq!(resolve_usb_port("COM9", &s(&["USB001"])), None);
}

#[test]
fn resolve_other_names_take_first_port() {
    assert_eq!(resolve_usb_port("impresora", &s(&["B", "A"])), Some("B".to_string()));
    assert_eq!(resolve_usb_port("impresora", &vec![]), None);
}

#[test]
fn spooler_port_lines() {
    let out = "  USB001\r\nLPT1\n\nUSB002 \nPORTPROMPT:\n";
    assert_eq!(parse_usb_print_ports(out), s(&["USB001", "USB002"]));
    assert_eq!(parse_usb_print_ports(""), Vec::<String>::new());
}

#[test]
fn linux_lp_nodes() {
    let r = usb_lp_candidates();
    assert_eq!(r.len(), 8);
    assert_eq!(r[0], "/dev/usb/lp0");
    assert_eq!(r[7], "/dev/usb/lp7");
}

#[test]
fn list_membership_is_exact() {
    let ports = s(&["COM1", "USB001"]);
    assert!(list_contains(&ports, &"USB001".chars().collect()));
    assert!(!list_contains(&ports, &"USB00".chars().collect()));
}

#[test]
fn usb_listing_json_normalised() {
    assert_eq!(usb_devices_json_array(" [{\"port\":\"USB001\"}] \r\n"), Some("[{\"port\":\"USB001\"}]".to_string()));
    assert_eq!(usb_devices_json_array("{\"port\":\"USB001\"}"), Some("[{\"port\":\"USB001\"}]".to_string()));
    assert_eq!(usb_devices_json_array(""), None);
    assert_eq!(usb_devices_json_array("Get-PnpDevice : error"), None);
}

#[test]
fn ip_guard_answer_by_match() {
    assert!(ip_guard_result("10.0.0.1", Some(true)).is_ok());
    assert_eq!(message(ip_guard_result("x", Some(false))), "IP inválida: 'x'");
    assert_eq!(message(ip_guard_result(" y ", None)), "IP inválida: ' y '");
}
