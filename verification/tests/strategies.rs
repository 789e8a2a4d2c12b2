use printer_monitor::strategy::windows::parse_powershell_json;
use printer_monitor::strategy::windows::find_or_install_generic_driver;
use std::cell::Cell;
use printer_monitor::strategy::linux::{linux_test_page_text, LinuxStrategy};
use printer_monitor::strategy::mac::{test_page_escpos, MacStrategy};
use printer_monitor::strategy::windows::{
    fallback_driver, generic_driver_install_script, install_script_succeeded, parse_driver_names,
    parse_powershell_rows, powershell_json_array, preferred_driver_if_installed, ps_escape_arg,
    PowerShellPrinterRow, WindowsStrategy,
};
use printer_monitor::strategy::{
    get_strategy, parse_lpstat_lines, CommandOutput, CommandPlan, Strategy, TargetOs,
};

const LPSTAT: &str = "printer HP_LaserJet is idle.  enabled since Mon 01 Jan 2024\n\
printer Zebra_ZD220 disabled since Mon 01 Jan 2024 -\n\
\treason unknown\n\
printer\n\
system default destination: HP_LaserJet\n";

fn args(p: &CommandPlan) -> Vec<&str> {
    p.args.iter().map(|a| a.as_str()).collect()
}

fn ok(stdout: &str) -> CommandOutput {
    CommandOutput { success: true, stdout: stdout.to_string(), stderr: String::new() }
}

fn failed(stderr: &str) -> CommandOutput {
    CommandOutput { success: false, stdout: String::new(), stderr: stderr.to_string() }
}

const PS: [&str; 6] = ["-NoLogo", "-NoProfile", "-NonInteractive", "-WindowStyle", "Hidden", "-Command"];

fn ps_script(p: &CommandPlan) -> &str {
    assert_eq!(p.program, "powershell");
    assert_eq!(p.args.len(), 7);
    assert_eq!(&args(p)[..6], &PS);
    p.args[6].as_str()
}

#[test]
fn strategy_follows_the_system() {
    assert!(matches!(get_strategy(TargetOs::MacOs), Strategy::Mac(_)));
    assert!(matches!(get_strategy(TargetOs::Windows), Strategy::Windows(_)));
    assert!(matches!(get_strategy(TargetOs::Linux), Strategy::Linux(_)));
}

#[test]
fn lpstat_lines_give_queues() {
    let r = parse_lpstat_lines(LPSTAT);
    assert_eq!(r.len(), 2);
    assert_eq!(r[0].name, "HP_LaserJet");
    assert_eq!(r[0].queue_name, "HP_LaserJet");
    assert_eq!(r[0].status, "Disponible");
    assert_eq!(r[0].source, "os");
    assert_eq!(r[0].connection_type, "os");
    assert!(!r[0].is_default);
    assert_eq!(r[0].address, None);
    assert_eq!(r[1].name, "Zebra_ZD220");
    assert_eq!(r[1].status, "Ocupada");
}

#[test]
fn mac_and_linux_read_lpstat_alike() {
    let m = MacStrategy.parse_lpstat_output(LPSTAT);
    let l = LinuxStrategy.parse_lpstat(LPSTAT);
    assert_eq!(m, l);
    assert_eq!(m.len(), 2);
    assert!(MacStrategy.parse_lpstat_output("").is_empty());
}

#[test]
fn lpstat_command_lists_printers_and_default() {
    for p in [MacStrategy.list_printers_command(), LinuxStrategy.list_printers_command()] {
        assert_eq!(p.program, "lpstat");
        assert_eq!(args(&p), vec!["-p", "-d"]);
        assert!(p.stdin.is_none());
    }
}

#[test]
fn mac_install_network_printer() {
    let p = MacStrategy.install_network_command("10.0.0.5", "Caja");
    assert_eq!(p.program, "lpadmin");
    assert_eq!(
        args(&p),
        vec!["-p", "Caja", "-E", "-v", "socket://10.0.0.5:9100", "-m", "drv:///sample.drv/generic.ppd"]
    );
    assert_eq!(
        MacStrategy.install_network_result("10.0.0.5", "Caja", &ok("")),
        Ok("Impresora 'Caja' instalada en 10.0.0.5:9100".to_string())
    );
    assert_eq!(
        MacStrategy.install_network_result("10.0.0.5", "Caja", &failed("lpadmin: denied")),
        Err("lpadmin: denied".to_string())
    );
}

#[test]
fn mac_install_usb_printer() {
    let p = MacStrategy.install_usb_command("/dev/usb/lp0", "Cocina");
    assert_eq!(
        args(&p),
        vec!["-p", "Cocina", "-E", "-v", "usb:///dev/usb/lp0", "-m", "drv:///sample.drv/generic.ppd"]
    );
    assert_eq!(
        MacStrategy.install_usb_result("/dev/usb/lp0", "Cocina", &ok("")),
        Ok("Impresora USB 'Cocina' instalada en /dev/usb/lp0".to_string())
    );
}

#[test]
fn mac_remove_rename_and_clear() {
    let rm = MacStrategy.remove_printer_command("Caja");
    assert_eq!((rm.program.as_str(), args(&rm)), ("lpadmin", vec!["-x", "Caja"]));
    assert_eq!(MacStrategy.remove_printer_result("Caja", &ok("")), Ok("Impresora 'Caja' eliminada".to_string()));
    let rn = MacStrategy.rename_printer_command("Caja", "Caja 2");
    assert_eq!(args(&rn), vec!["-p", "Caja", "-D", "Caja 2"]);
    assert_eq!(MacStrategy.rename_printer_result("Caja 2", &ok("")), Ok("Impresora renombrada a 'Caja 2'".to_string()));
    let cl = MacStrategy.clear_queue_command("Caja");
    assert_eq!((cl.program.as_str(), args(&cl)), ("cancel", vec!["-a", "Caja"]));
    assert_eq!(MacStrategy.clear_queue_result("Caja", &ok("")), Ok("Cola de 'Caja' limpiada".to_string()));
    assert_eq!(MacStrategy.clear_queue_result("Caja", &failed("no")), Err("no".to_string()));
}

#[test]
fn mac_test_page_bytes() {
    let page = test_page_escpos("58mm");
    assert_eq!(page, format!("\x1b@\x1b!0{}\n  PAGINA DE PRUEBA\n\x1dVB", "=".repeat(32)));
    let p = MacStrategy.print_test_command("Caja", "80mm");
    assert_eq!(p.program, "lp");
    assert_eq!(args(&p), vec!["-d", "Caja", "-"]);
    let expected = format!("\x1b@\x1b!0{}\n  PAGINA DE PRUEBA\n\x1dVB", "=".repeat(48));
    assert_eq!(p.stdin, Some(expected.into_bytes()));
    assert_eq!(MacStrategy.print_test_result("Caja", &ok("request id")), Ok("Prueba enviada a 'Caja'".to_string()));
}

#[test]
fn linux_commands_and_results() {
    let p = LinuxStrategy.install_network_command("192.168.0.9", "Barra");
    assert_eq!(p.program, "lpadmin");
    assert_eq!(
        args(&p),
        vec!["-p", "Barra", "-E", "-v", "socket://192.168.0.9:9100", "-m", "drv:///sample.drv/generic.ppd"]
    );
    let u = LinuxStrategy.install_usb_command("/dev/usb/lp1", "Barra");
    assert_eq!(args(&u)[4], "usb:///dev/usb/lp1");
    assert_eq!(args(&LinuxStrategy.remove_printer_command("Barra")), vec!["-x", "Barra"]);
    assert_eq!(args(&LinuxStrategy.rename_printer_command("Barra", "B2")), vec!["-p", "Barra", "-D", "B2"]);
    assert_eq!(LinuxStrategy.lpadmin_result(&ok("hecho")), Ok("hecho".to_string()));
    assert_eq!(LinuxStrategy.lpadmin_result(&failed("error")), Err("error".to_string()));
    assert_eq!(LinuxStrategy.clear_queue_result(&ok("")), Ok("Cola limpiada".to_string()));
    assert_eq!(LinuxStrategy.print_test_result("Barra", &failed("sin cola")), Err("sin cola".to_string()));
}

#[test]
fn linux_test_page_bytes() {
    let expected = format!("\x1b@{}\nPAGINA DE PRUEBA\n\x1dVB", "=".repeat(32));
    assert_eq!(linux_test_page_text("58mm"), expected);
    let p = LinuxStrategy.print_test_command("Barra", "58mm");
    assert_eq!(p.program, "lp");
    assert_eq!(args(&p), vec!["-d", "Barra", "-"]);
    assert_eq!(p.stdin, Some(expected.into_bytes()));
}

#[test]
fn powershell_escaping() {
    assert_eq!(ps_escape_arg("O'Brien"), "O''Brien");
    assert_eq!(ps_escape_arg("a\nb\tc\u{7f}d\u{85}e"), "abcde");
    assert_eq!(ps_escape_arg("''"), "''''");
    assert_eq!(ps_escape_arg("Impresora ñ"), "Impresora ñ");
}

#[test]
fn windows_list_and_queue_commands() {
    let w = WindowsStrategy;
    assert_eq!(
        ps_script(&w.list_printers_command()),
        "Get-Printer | Select-Object Name,PrinterStatus,Default | ConvertTo-Json"
    );
    assert_eq!(ps_script(&w.remove_printer_command("Caja'1")), "Remove-Printer -Name 'Caja''1'");
    assert_eq!(
        ps_script(&w.rename_printer_command("Caja", "Caja\n2")),
        "Rename-Printer -Name 'Caja' -NewName 'Caja2'"
    );
    assert_eq!(
        ps_script(&w.clear_queue_command("Caja")),
        "Get-PrintJob -PrinterName 'Caja' | Remove-PrintJob"
    );
}

#[test]
fn windows_install_commands() {
    let w = WindowsStrategy;
    assert_eq!(
        ps_script(&w.install_network_command("10.0.0.7", "Caja", "Generic / Text Only")),
        "Add-PrinterPort -Name 'IP_10.0.0.7' -PrinterHostAddress '10.0.0.7'; Add-Printer -Name 'Caja' -PortName 'IP_10.0.0.7' -DriverName 'Generic / Text Only'"
    );
    assert_eq!(
        ps_script(&w.install_usb_command("USB001", "Caja", "Generic / Text Only")),
        "$p = Get-Printer -Name 'Caja' -EA SilentlyContinue; if ($p -and $p.PortName -eq 'USB001') { Remove-Printer -Name 'Caja' -EA SilentlyContinue }; Add-Printer -Name 'Caja' -PortName 'USB001' -DriverName 'Generic / Text Only' -EA Stop"
    );
}

#[test]
fn windows_results_and_messages() {
    let w = WindowsStrategy;
    assert_eq!(w.run_ps_result(&ok("listo")), Ok("listo".to_string()));
    assert_eq!(w.run_ps_result(&failed("Access denied")), Err("Access denied".to_string()));
    assert!(w.is_spooler_usb_port("USB001"));
    assert!(w.is_spooler_usb_port("usb002"));
    assert!(!w.is_spooler_usb_port("COM3"));
    assert_eq!(
        w.test_usb_printer_message("USB001", "58mm"),
        "PDF de prueba enviado al puerto USB001 [58mm]"
    );
}

#[test]
fn powershell_json_is_made_an_array() {
    assert_eq!(powershell_json_array("  [{\"Name\":\"A\"}]\r\n"), "[{\"Name\":\"A\"}]");
    assert_eq!(powershell_json_array(" {\"Name\":\"A\"} "), "[{\"Name\":\"A\"}]");
    assert_eq!(powershell_json_array(""), "[]");
}

#[test]
fn powershell_rows_give_queues() {
    let rows = vec![
        PowerShellPrinterRow { name: Some("HP".to_string()), is_default: Some(true), printer_status: Some(3) },
        PowerShellPrinterRow { name: None, is_default: Some(false), printer_status: Some(3) },
        PowerShellPrinterRow { name: Some("Zebra".to_string()), is_default: None, printer_status: None },
        PowerShellPrinterRow { name: Some("Fax".to_string()), is_default: Some(false), printer_status: Some(0) },
    ];
    let r = parse_powershell_rows(&rows);
    assert_eq!(r.len(), 3);
    assert_eq!((r[0].name.as_str(), r[0].is_default, r[0].status.as_str()), ("HP", true, "Disponible"));
    assert_eq!((r[1].name.as_str(), r[1].is_default, r[1].status.as_str()), ("Zebra", false, "Ocupada"));
    assert_eq!((r[2].name.as_str(), r[2].status.as_str()), ("Fax", "Ocupada"));
    assert_eq!(r[2].source, "os");
}

#[test]
fn driver_names_are_trimmed_lines() {
    let out = "Generic / Text Only\r\n  Microsoft XPS Document Writer v4 \n\n   \nZebra ZPL\n";
    assert_eq!(
        parse_driver_names(out),
        vec!["Generic / Text Only", "Microsoft XPS Document Writer v4", "Zebra ZPL"]
    );
}

#[test]
fn preferred_driver_when_installed() {
    let installed = vec!["A".to_string(), "Generic / Text Only".to_string()];
    assert_eq!(preferred_driver_if_installed(&installed), Some("Generic / Text Only".to_string()));
    assert_eq!(preferred_driver_if_installed(&vec!["Generic".to_string()]), None);
    assert!(install_script_succeeded("OK\r\n"));
    assert!(!install_script_succeeded("FAIL\r\n"));
    let script = generic_driver_install_script();
    assert!(script.starts_with("$name = 'Generic / Text Only'\n"));
    assert!(script.ends_with("Write-Output 'FAIL'"));
}

#[test]
fn fallback_driver_order() {
    let s = |v: &[&str]| v.iter().map(|x| x.to_string()).collect::<Vec<String>>();
    assert_eq!(
        fallback_driver(&s(&["Microsoft XPS Document Writer v4", "HP Universal GENERIC PCL"])),
        Ok("HP Universal GENERIC PCL".to_string())
    );
    assert_eq!(
        fallback_driver(&s(&["Microsoft Print To PDF", "Zebra ZPL", "Microsoft IPP Class Driver"])),
        Ok("Microsoft IPP Class Driver".to_string())
    );
    assert_eq!(
        fallback_driver(&s(&["Microsoft Software Printer Driver", "Microsoft enhanced Point and Print compatibility driver"])),
        Ok("Microsoft enhanced Point and Print compatibility driver".to_string())
    );
    assert_eq!(
        fallback_driver(&s(&["Microsoft Print To PDF", "Send To OneNote 2016", "Zebra ZPL"])),
        Ok("Zebra ZPL".to_string())
    );
    assert_eq!(
        fallback_driver(&s(&["Microsoft Print To PDF", "Remote Desktop Easy Print Fax"])),
        Err("No se encontró ningún controlador de impresora compatible. Verifica que el servicio de cola de impresión (Spooler) esté activo.".to_string())
    );
    assert!(fallback_driver(&vec![]).is_err());
}

#[test]
fn driver_search_order() {
    let ran = Cell::new(false);
    let r = find_or_install_generic_driver(
        || vec!["Generic / Text Only".to_string()],
        |_script: String| { ran.set(true); Some("OK".to_string()) },
        || vec![],
    );
    assert_eq!(r, Ok("Generic / Text Only".to_string()));
    assert!(!ran.get());
    let r2 = find_or_install_generic_driver(
        || vec![],
        |script: String| {
            assert!(script.starts_with("$name = 'Generic / Text Only'"));
            Some("OK\r\n".to_string())
        },
        || vec![],
    );
    assert_eq!(r2, Ok("Generic / Text Only".to_string()));
    let r3 = find_or_install_generic_driver(
        || vec![],
        |_script: String| Some("FAIL".to_string()),
        || vec!["Zebra ZPL".to_string()],
    );
    assert_eq!(r3, Ok("Zebra ZPL".to_string()));
    let r4 = find_or_install_generic_driver(|| vec![], |_script: String| None, || vec![]);
    assert!(r4.unwrap_err().starts_with("No se encontró ningún controlador"));
}

#[test]
fn powershell_json_listing() {
    let many = r#"[{"Name":"EPSON TM-T20","PrinterStatus":3,"Default":true},{"Name":"Fax","PrinterStatus":0,"Default":false},{"PrinterStatus":3}]"#;
    let r = parse_powershell_json(many);
    assert_eq!(r.len(), 2);
    assert_eq!((r[0].name.as_str(), r[0].is_default, r[0].status.as_str()), ("EPSON TM-T20", true, "Disponible"));
    assert_eq!((r[1].name.as_str(), r[1].is_default, r[1].status.as_str()), ("Fax", false, "Ocupada"));
    let one = "\r\n{\"Name\":\"Zebra\",\"PrinterStatus\":3,\"Default\":\"si\"}\r\n";
    let r1 = parse_powershell_json(one);
    assert_eq!(r1.len(), 1);
    assert_eq!((r1[0].name.as_str(), r1[0].is_default, r1[0].status.as_str()), ("Zebra", false, "Disponible"));
    assert!(parse_powershell_json("").is_empty());
    assert!(parse_powershell_json("Get-Printer : error").is_empty());
}
