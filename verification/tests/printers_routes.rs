use printer_monitor::printer_cache::printer_cache;
use printer_monitor::printers::load_printers_with_cache;
use printer_monitor::printers::{pdf_printed_message, pdf_sent_message};
use printer_monitor::model::{CustomPrinter, PrinterInfo};
use printer_monitor::printers::{
    address_host, app_escpos_target, app_printer_info, app_usb_port, build_app_printers,
    build_test_escpos, merge_app_printers, network_printer_address, print_test_pdf_route,
    print_test_route, printer_removed_message, usb_app_registered_message, usb_mode,
    uses_app_escpos, AppTarget, PdfTestRoute, PrintTestRoute, UsbMode,
};

fn cp(alias: &str, ct: &str, address: &str) -> CustomPrinter {
    CustomPrinter { alias: alias.to_string(), connection_type: ct.to_string(), address: address.to_string() }
}

fn os_queue(name: &str) -> PrinterInfo {
    PrinterInfo {
        name: name.to_string(),
        queue_name: name.to_string(),
        is_default: true,
        status: "Disponible".to_string(),
        source: "os".to_string(),
        connection_type: "os".to_string(),
        address: None,
    }
}

fn s(v: &[&str]) -> Vec<String> {
    v.iter().map(|x| x.to_string()).collect()
}

fn app_ticket(cols: usize) -> Vec<u8> {
    let mut d = vec![0x1b, b'@'];
    d.extend_from_slice("=".repeat(cols).as_bytes());
    d.extend_from_slice(b"\n  PAGINA DE PRUEBA\n");
    d.extend_from_slice("=".repeat(cols).as_bytes());
    d.extend_from_slice(b"\n\x1dVB");
    d
}

#[test]
fn app_printers_are_listed_as_app() {
    let p = app_printer_info(&cp("Caja", "network", "10.0.0.5:9100"));
    assert_eq!(p.name, "Caja");
    assert_eq!(p.queue_name, "Caja");
    assert!(!p.is_default);
    assert_eq!(p.status, "App");
    assert_eq!(p.source, "app");
    assert_eq!(p.connection_type, "network");
    assert_eq!(p.address, Some("10.0.0.5:9100".to_string()));
    let all = build_app_printers(&vec![cp("A", "usb_app", "COM3"), cp("B", "usb_system", "USB001")]);
    assert_eq!(all.len(), 2);
    assert_eq!(all[1].connection_type, "usb_system");
}

#[test]
fn merged_list_keeps_system_queues_first_and_lists_every_registration() {
    let custom = vec![
        cp("Caja", "network", "10.0.0.5:9100"),
        cp("Sistema", "usb_system", "USB001"),
        cp("Directa", "usb_direct", "COM3"),
        cp("Cocina", "usb_app", "COM4"),
    ];
    let r = merge_app_printers(vec![os_queue("HP")], &custom);
    let names: Vec<&str> = r.iter().map(|p| p.name.as_str()).collect();
    assert_eq!(names, vec!["HP", "Caja", "Sistema", "Directa", "Cocina"]);
    assert_eq!(r[0], os_queue("HP"));
    assert_eq!(r[3].connection_type, "usb_direct");
    assert_eq!(r[4].source, "app");
}

#[test]
fn short_app_ticket() {
    assert_eq!(build_test_escpos("58mm"), app_ticket(32));
    assert_eq!(build_test_escpos("80mm"), app_ticket(48));
}

#[test]
fn host_of_address() {
    assert_eq!(address_host("10.0.0.5:9100"), "10.0.0.5");
    assert_eq!(address_host("10.0.0.5"), "10.0.0.5");
    assert_eq!(address_host(":9100"), "");
}

#[test]
fn test_print_on_system_queue_or_missing_printer() {
    assert!(matches!(print_test_route("HP", "58mm", true, None), Ok(PrintTestRoute::OsQueue)));
    match print_test_route("Nada", "58mm", false, None) {
        Err(e) => assert_eq!(e, "La impresora 'Nada' no existe en el SO ni en la app."),
        Ok(_) => panic!("expected an error"),
    }
}

#[test]
fn test_print_on_network_printer() {
    match print_test_route("Caja", "58mm", false, Some(&cp("Caja", "network", "10.0.0.5:9100"))) {
        Ok(PrintTestRoute::Network { ip, payload }) => {
            assert_eq!(ip, "10.0.0.5");
            assert_eq!(payload, app_ticket(32));
        }
        _ => panic!("expected a network route"),
    }
    match print_test_route("Caja", "58mm", false, Some(&cp("Caja", "network", "impresora:9100"))) {
        Err(e) => assert_eq!(e, "IP inválida: 'impresora'"),
        Ok(_) => panic!("expected an error"),
    }
}

#[test]
fn test_print_on_usb_printers() {
    match print_test_route("Cocina", "80mm", false, Some(&cp("Cocina", "usb_app", "COM4"))) {
        Ok(PrintTestRoute::UsbApp { saved_port, payload }) => {
            assert_eq!(saved_port, "COM4");
            assert_eq!(payload, app_ticket(48));
        }
        _ => panic!("expected a USB app route"),
    }
    match print_test_route("S", "80mm", false, Some(&cp("S", "usb_system", "USB001"))) {
        Ok(PrintTestRoute::UsbSystem { port }) => assert_eq!(port, "USB001"),
        _ => panic!("expected a USB system route"),
    }
    match print_test_route("X", "80mm", false, Some(&cp("X", "bluetooth", "AA"))) {
        Err(e) => assert_eq!(e, "Tipo de conexión no soportado: bluetooth"),
        Ok(_) => panic!("expected an error"),
    }
}

#[test]
fn usb_port_of_app_printer() {
    let ports = s(&["COM1", "COM4"]);
    assert_eq!(app_usb_port("COM4", &ports), Some(("COM4".to_string(), false)));
    assert_eq!(app_usb_port("COM9", &ports), Some(("COM1".to_string(), true)));
    assert_eq!(app_usb_port("USB001", &ports), None);
}

#[test]
fn pdf_test_routes() {
    assert!(matches!(print_test_pdf_route("HP", true, None), Ok(PdfTestRoute::OsQueue)));
    assert!(matches!(
        print_test_pdf_route("C", false, Some(&cp("C", "usb_app", "COM1"))),
        Ok(PdfTestRoute::AppEscPos)
    ));
    match print_test_pdf_route("S", false, Some(&cp("S", "usb_system", "USB001"))) {
        Err(e) => assert_eq!(e, "Tipo de conexión no soportado para PDF: usb_system"),
        Ok(_) => panic!("expected an error"),
    }
    match print_test_pdf_route("N", false, None) {
        Err(e) => assert_eq!(e, "La impresora 'N' no existe en el SO ni en la app."),
        Ok(_) => panic!("expected an error"),
    }
}

#[test]
fn escpos_targets_of_app_printers() {
    assert!(uses_app_escpos(Some(&cp("C", "network", "1.2.3.4:9100"))));
    assert!(uses_app_escpos(Some(&cp("C", "usb_app", "COM1"))));
    assert!(!uses_app_escpos(Some(&cp("C", "usb_system", "USB001"))));
    assert!(!uses_app_escpos(None));
    match app_escpos_target(&cp("C", "network", "1.2.3.4:9100"), || -> Vec<String> { panic!("ports not needed") }) {
        Ok(AppTarget::Tcp { ip }) => assert_eq!(ip, "1.2.3.4"),
        _ => panic!("expected TCP"),
    }
    match app_escpos_target(&cp("C", "usb_app", "USB003"), || s(&["USB001"])) {
        Ok(AppTarget::Usb { port, update_saved }) => {
            assert_eq!(port, "USB001");
            assert!(update_saved);
        }
        _ => panic!("expected USB"),
    }
    match app_escpos_target(&cp("C", "usb_app", "USB003"), Vec::new) {
        Err(e) => assert_eq!(e, "No se encontró puerto USB disponible"),
        Ok(_) => panic!("expected an error"),
    }
    match app_escpos_target(&cp("C", "usb_direct", "COM1"), Vec::new) {
        Err(e) => assert_eq!(e, "Tipo de conexión no soportado para App: usb_direct"),
        Ok(_) => panic!("expected an error"),
    }
}

#[test]
fn registration_texts_and_modes() {
    assert_eq!(network_printer_address("192.168.1.20"), "192.168.1.20:9100");
    assert_eq!(usb_mode("system"), Ok(UsbMode::System));
    assert_eq!(usb_mode("app"), Ok(UsbMode::App));
    assert_eq!(usb_mode("App"), Err("Modo USB inválido. Usa 'system' o 'app'.".to_string()));
    assert_eq!(usb_app_registered_message("Cocina"), "Impresora USB 'Cocina' registrada en modo app.");
    assert_eq!(printer_removed_message("Caja"), "Impresora 'Caja' eliminada");
}

#[test]
fn pdf_job_answers() {
    assert_eq!(pdf_sent_message("HP", "80mm"), "PDF enviado a 'HP' [80mm]");
    assert_eq!(pdf_printed_message("Caja", "58mm"), "PDF impreso en 'Caja' [58mm]");
}

#[test]
fn printer_list_from_cache_and_registrations() {
    let mut cache = printer_cache();
    let r = load_printers_with_cache(&mut cache, || vec![os_queue("HP")], || {
        vec![cp("Caja", "network", "1.2.3.4:9100"), cp("Sis", "usb_system", "USB001")]
    });
    let names: Vec<&str> = r.iter().map(|p| p.name.as_str()).collect();
    assert_eq!(names, vec!["HP", "Caja", "Sis"]);
    // Within the time to live the system queues come from the cache.
    let r2 = load_printers_with_cache(&mut cache, || vec![os_queue("Otra")], Vec::new);
    assert_eq!(r2.len(), 1);
    assert_eq!(r2[0].name, "HP");
}
