use std::cell::RefCell;

use printer_monitor::model::PrinterInfo;
use printer_monitor::printers::{
    add_network_printer_blocking, add_usb_printer_blocking, clear_print_queue_blocking,
    print_test_tcp_blocking, remove_custom_printer_blocking, rename_printer_blocking,
    test_usb_printer_blocking, usb_app_test_port,
};

fn queue(name: &str) -> PrinterInfo {
    PrinterInfo {
        name: name.to_string(),
        queue_name: name.to_string(),
        is_default: false,
        status: "Disponible".to_string(),
        source: "os".to_string(),
        connection_type: "os".to_string(),
        address: None,
    }
}

fn s(v: &[&str]) -> Vec<String> {
    v.iter().map(|x| x.to_string()).collect()
}

#[test]
fn rename_checks_name_then_queue() {
    let log = RefCell::new(Vec::<&str>::new());
    let r = rename_printer_blocking("HP", "  ", || { log.borrow_mut().push("list"); vec![queue("HP")] }, || {
        log.borrow_mut().push("rename");
        Ok("ok".to_string())
    });
    assert_eq!(r, Err("El nombre no puede estar vacío.".to_string()));
    assert!(log.borrow().is_empty());
    let r2 = rename_printer_blocking("HP", "Caja", || vec![queue("Zebra")], || Ok("ok".to_string()));
    assert_eq!(r2, Err("La impresora 'HP' no existe en el SO.".to_string()));
    let r3 = rename_printer_blocking("HP", "Caja", || vec![queue("HP")], || Ok("renombrada".to_string()));
    assert_eq!(r3, Ok("renombrada".to_string()));
}

#[test]
fn clear_queue_needs_a_listed_queue() {
    assert_eq!(
        clear_print_queue_blocking("HP", || vec![], || Ok("Cola limpiada".to_string())),
        Err("La impresora 'HP' no existe en el SO.".to_string())
    );
    assert_eq!(
        clear_print_queue_blocking("HP", || vec![queue("HP")], || Err("cancel: falló".to_string())),
        Err("cancel: falló".to_string())
    );
}

#[test]
fn network_registration_order_of_checks() {
    let log = RefCell::new(Vec::<String>::new());
    let run = |ip: &str, name: &str, reach: Result<(), String>, aliases: Vec<String>, ins: Result<(), String>| {
        log.borrow_mut().clear();
        add_network_printer_blocking(
            ip,
            name,
            || { log.borrow_mut().push("reach".to_string()); reach },
            || { log.borrow_mut().push("aliases".to_string()); aliases },
            |alias: String, ct: String, addr: String| {
                log.borrow_mut().push(format!("insert {alias} {ct} {addr}"));
                ins
            },
            || { log.borrow_mut().push("install".to_string()); Ok("instalada".to_string()) },
        )
    };
    assert_eq!(run("10.0.0.5", "", Ok(()), vec![], Ok(())), Err("El nombre no puede estar vacío.".to_string()));
    assert!(log.borrow().is_empty());
    assert_eq!(run("10.0.0", "Caja", Ok(()), vec![], Ok(())), Err("IP inválida: '10.0.0'".to_string()));
    assert!(log.borrow().is_empty());
    assert_eq!(
        run("10.0.0.5", "Caja", Err("No se puede conectar a 10.0.0.5:9100".to_string()), vec![], Ok(())),
        Err("No se puede conectar a 10.0.0.5:9100".to_string())
    );
    assert_eq!(*log.borrow(), vec!["reach".to_string()]);
    assert_eq!(
        run("10.0.0.5", "Caja", Ok(()), s(&["Caja"]), Ok(())),
        Err("Ya existe una impresora con el alias 'Caja'.".to_string())
    );
    assert_eq!(
        run("10.0.0.5", "Caja", Ok(()), vec![], Err("UNIQUE constraint failed".to_string())),
        Err("UNIQUE constraint failed".to_string())
    );
    assert_eq!(run("10.0.0.5", "Caja", Ok(()), s(&["Cocina"]), Ok(())), Ok("instalada".to_string()));
    assert_eq!(
        *log.borrow(),
        s(&["reach", "aliases", "insert Caja network 10.0.0.5:9100", "install"])
    );
}

#[test]
fn usb_registration_modes() {
    let ports = || s(&["COM3", "USB001"]);
    assert_eq!(
        add_usb_printer_blocking("COM3", " ", "app", ports, || Ok("x".to_string()), || vec![], |_: String, _: String, _: String| Ok(())),
        Err("El nombre no puede estar vacío.".to_string())
    );
    assert_eq!(
        add_usb_printer_blocking("COM9", "Caja", "app", ports, || Ok("x".to_string()), || vec![], |_: String, _: String, _: String| Ok(())),
        Err("El puerto 'COM9' no existe o no está disponible.".to_string())
    );
    assert_eq!(
        add_usb_printer_blocking("USB001", "Caja", "system", ports, || Ok("instalada".to_string()), || vec![], |_: String, _: String, _: String| Ok(())),
        Ok("instalada".to_string())
    );
    assert_eq!(
        add_usb_printer_blocking("COM3", "Caja", "app", ports, || Ok("x".to_string()), || vec![], |_: String, _: String, _: String| Ok(())),
        Ok("Impresora USB 'Caja' registrada en modo app.".to_string())
    );
    assert_eq!(
        add_usb_printer_blocking("COM3", "Caja", "app", ports, || Ok("x".to_string()), || s(&["Caja"]), |_: String, _: String, _: String| Ok(())),
        Err("Ya existe una impresora con el alias 'Caja'.".to_string())
    );
    assert_eq!(
        add_usb_printer_blocking("COM3", "Caja", "raw", ports, || Ok("x".to_string()), || vec![], |_: String, _: String, _: String| Ok(())),
        Err("Modo USB inválido. Usa 'system' o 'app'.".to_string())
    );
}

#[test]
fn device_interface_ports_skip_the_port_list() {
    let listed = RefCell::new(false);
    let r = add_usb_printer_blocking(
        "\\\\?\\USB#VID_0416",
        "Caja",
        "app",
        || { *listed.borrow_mut() = true; vec![] },
        || Ok("x".to_string()),
        || vec![],
        |_: String, _: String, _: String| Ok(()),
    );
    assert_eq!(r, Ok("Impresora USB 'Caja' registrada en modo app.".to_string()));
    assert!(!*listed.borrow());
    let t = test_usb_printer_blocking("\\\\?\\USB#VID_0416", || vec![], || Ok("enviado".to_string()));
    assert_eq!(t, Ok("enviado".to_string()));
    let t2 = test_usb_printer_blocking("COM7", || s(&["COM3"]), || Ok("enviado".to_string()));
    assert_eq!(t2, Err("El puerto 'COM7' no existe o no está disponible.".to_string()));
}

#[test]
fn tcp_test_print_checks() {
    assert_eq!(
        print_test_tcp_blocking("abc", || Ok(()), || Ok("enviado".to_string())),
        Err("IP inválida: 'abc'".to_string())
    );
    assert_eq!(
        print_test_tcp_blocking("10.1.1.1", || Err("sin respuesta".to_string()), || Ok("enviado".to_string())),
        Err("sin respuesta".to_string())
    );
    assert_eq!(
        print_test_tcp_blocking("10.1.1.1", || Ok(()), || Ok("ESC/POS enviado a 10.1.1.1:9100".to_string())),
        Ok("ESC/POS enviado a 10.1.1.1:9100".to_string())
    );
}

#[test]
fn removing_a_registered_printer() {
    let deleted = RefCell::new(String::new());
    assert_eq!(
        remove_custom_printer_blocking("Caja", |a: String| {
            *deleted.borrow_mut() = a;
            Ok(())
        }),
        Ok("Impresora 'Caja' eliminada".to_string())
    );
    assert_eq!(*deleted.borrow(), "Caja");
    assert_eq!(
        remove_custom_printer_blocking("Caja", |_: String| Err("database is locked".to_string())),
        Err("database is locked".to_string())
    );
}

#[test]
fn usb_app_test_port_resolution() {
    assert_eq!(usb_app_test_port("COM3", &s(&["COM3"])), Ok(("COM3".to_string(), false)));
    assert_eq!(usb_app_test_port("USB009", &s(&["COM3", "USB002"])), Ok(("USB002".to_string(), true)));
    assert_eq!(
        usb_app_test_port("USB009", &s(&["COM3"])),
        Err("No se encontró ningún puerto USB disponible para esta impresora.".to_string())
    );
}

#[test]
fn usb_rows_and_alias_in_both_modes() {
    let ports = || s(&["COM3"]);
    let row = RefCell::new(Vec::<String>::new());
    let r = add_usb_printer_blocking("COM3", "Cocina", "app", ports, || Ok("x".to_string()), || vec![], |a: String, t: String, p: String| {
        *row.borrow_mut() = vec![a, t, p];
        Ok(())
    });
    assert_eq!(r, Ok("Impresora USB 'Cocina' registrada en modo app.".to_string()));
    assert_eq!(*row.borrow(), s(&["Cocina", "usb_app", "COM3"]));
    let installed = RefCell::new(false);
    let r2 = add_usb_printer_blocking("COM3", "Cocina", "system", ports, || {
        *installed.borrow_mut() = true;
        Ok("instalada".to_string())
    }, || s(&["Cocina"]), |_: String, _: String, _: String| Ok(()));
    assert_eq!(r2, Err("Ya existe una impresora con el alias 'Cocina'.".to_string()));
    assert!(!*installed.borrow());
}
