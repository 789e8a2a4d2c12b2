use printer_monitor::bluetooth::profiler_bluetooth_devices;
use std::cell::Cell;

use printer_monitor::bluetooth::{
    bluetoothctl_connected, parse_bluetoothctl_devices, parse_pnp_bluetooth_csv, profiler_devices,
    ProfilerController, ProfilerDevice,
};
use printer_monitor::model::{PrintedFile, PrinterInfo, UsbDevice};
use printer_monitor::network::{
    default_gateway, interface_prefix, network_config, prefix_mask, reachable_hosts,
    scan_candidates, scan_probe_address, scan_targets, subnet_base,
};
use printer_monitor::printer_cache::{
    get_or_load_printers, get_or_load_usb, invalidate_printers, invalidate_usb, printer_cache,
    usb_cache,
};
use printer_monitor::system::{
    is_pdf_file_name, launched_hidden, linux_desktop_entry, mac_launch_agent_plist, path_under,
    printed_files, sort_newest_first, startup_autostart, windows_query_args,
    windows_register_args, windows_unregister_args, OutputEntry, StartupAutostart,
};

fn file(name: &str, modified: u64) -> PrintedFile {
    PrintedFile { name: name.to_string(), path: format!("/out/{name}"), size_kb: 1, modified }
}

fn entry(name: &str, len: u64, modified: Option<u64>) -> OutputEntry {
    OutputEntry { name: name.to_string(), path: format!("/out/{name}"), len, modified }
}

#[test]
fn printed_files_newest_first_and_stable() {
    let files = vec![file("a.pdf", 10), file("b.pdf", 30), file("c.pdf", 10), file("d.pdf", 20)];
    let names: Vec<String> = sort_newest_first(files).into_iter().map(|f| f.name).collect();
    assert_eq!(names, vec!["b.pdf", "d.pdf", "a.pdf", "c.pdf"]);
    assert!(sort_newest_first(vec![]).is_empty());
}

#[test]
fn sorting_keeps_every_file() {
    let files: Vec<PrintedFile> = (0..20u64).map(|i| file(&format!("f{i}.pdf"), (i * 7) % 5)).collect();
    let r = sort_newest_first(files.clone());
    assert_eq!(r.len(), 20);
    assert!(r.windows(2).all(|w| w[0].modified >= w[1].modified));
    for f in &files {
        assert_eq!(r.iter().filter(|g| *g == f).count(), 1);
    }
}

#[test]
fn pdf_extension_rule() {
    assert!(is_pdf_file_name("ticket.pdf"));
    assert!(is_pdf_file_name("a..pdf"));
    assert!(is_pdf_file_name(".x.pdf"));
    assert!(!is_pdf_file_name(".pdf"));
    assert!(!is_pdf_file_name("ticket.PDF"));
    assert!(!is_pdf_file_name("ticket.pdf.txt"));
    assert!(!is_pdf_file_name("pdf"));
}

#[test]
fn output_directory_listing() {
    let entries = vec![
        entry("viejo.pdf", 2048, Some(100)),
        entry("notas.txt", 10, Some(500)),
        entry("nuevo.pdf", 1023, Some(300)),
        entry("roto.pdf", 5000, None),
        entry("medio.pdf", 5000, Some(200)),
    ];
    let r = printed_files(entries);
    let got: Vec<(&str, u64, u64)> = r.iter().map(|f| (f.name.as_str(), f.size_kb, f.modified)).collect();
    assert_eq!(got, vec![("nuevo.pdf", 0, 300), ("medio.pdf", 4, 200), ("viejo.pdf", 2, 100)]);
    assert_eq!(r[0].path, "/out/nuevo.pdf");
}

#[test]
fn autostart_flag_in_arguments() {
    let args = |v: &[&str]| v.iter().map(|x| x.to_string()).collect::<Vec<String>>();
    assert!(launched_hidden(&args(&["app.exe", "--autostart"])));
    assert!(!launched_hidden(&args(&["app.exe", "--autostart=1"])));
    assert!(!launched_hidden(&args(&[])));
}

#[test]
fn login_entries() {
    assert_eq!(
        linux_desktop_entry("/opt/app/centro"),
        "[Desktop Entry]\nType=Application\nName=Centro de Ayuda Codicore\nExec=/opt/app/centro\nHidden=false\n"
    );
    let plist = mac_launch_agent_plist("/Applications/Centro.app/Contents/MacOS/centro");
    let expected = r#"<?xml version="1.0" encoding="UTF-8"?>
<!DOCTYPE plist PUBLIC "-//Apple//DTD PLIST 1.0//EN" "http://www.apple.com/DTDs/PropertyList-1.0.dtd">
<plist version="1.0">
<dict>
  <key>Label</key><string>com.codicore.centro-de-ayuda</string>
  <key>ProgramArguments</key><array><string>/Applications/Centro.app/Contents/MacOS/centro</string></array>
  <key>RunAtLoad</key><true/>
  <key>KeepAlive</key><false/>
</dict>
</plist>"#;
    assert_eq!(plist, expected);
}

#[test]
fn paths_under_home() {
    assert_eq!(path_under("/home/ana", ".config/autostart/x.desktop"), "/home/ana/.config/autostart/x.desktop");
    assert_eq!(path_under("/home/ana/", "x"), "/home/ana/x");
    assert_eq!(path_under("", "x"), "x");
}

#[test]
fn registry_arguments() {
    let key = "HKCU\\Software\\Microsoft\\Windows\\CurrentVersion\\Run";
    assert_eq!(
        windows_register_args("C:\\App\\centro.exe"),
        vec!["add", key, "/v", "CentroDeAyudaCodicore", "/d", "\"C:\\App\\centro.exe\" --autostart", "/f"]
    );
    assert_eq!(windows_unregister_args(), vec!["delete", key, "/v", "CentroDeAyudaCodicore", "/f"]);
    assert_eq!(windows_query_args(), vec!["query", key, "/v", "CentroDeAyudaCodicore"]);
}

#[test]
fn startup_registration_decision() {
    let asked = Cell::new(0);
    let probe = |v: bool| {
        let asked = &asked;
        move || {
            asked.set(asked.get() + 1);
            v
        }
    };
    assert_eq!(startup_autostart(true, true, probe(true)), StartupAutostart::Leave);
    assert_eq!(startup_autostart(false, true, probe(false)), StartupAutostart::RegisterAndMark);
    assert_eq!(asked.get(), 0);
    assert_eq!(startup_autostart(false, false, probe(true)), StartupAutostart::Refresh);
    assert_eq!(startup_autostart(false, false, probe(false)), StartupAutostart::Leave);
    assert_eq!(asked.get(), 2);
}

#[test]
fn bluetoothctl_devices_and_state() {
    let out = "Device AA:BB:CC:DD:EE:FF Impresora BT 58\nController 11:22 host\nDevice 12:34:56:78:9A:BC\nDevice 00:11:22:33:44:55 Auriculares\n";
    let r = parse_bluetoothctl_devices(out);
    assert_eq!(r.len(), 2);
    assert_eq!(r[0].address, "AA:BB:CC:DD:EE:FF");
    assert_eq!(r[0].name, "Impresora BT 58");
    assert_eq!(r[1].name, "Auriculares");
    assert!(bluetoothctl_connected("Name: X\n\tConnected: yes\n"));
    assert!(!bluetoothctl_connected("\tConnected: no\n"));
}

#[test]
fn pnp_csv_devices() {
    let out = "\"FriendlyName\",\"InstanceId\",\"Status\"\r\n\"Impresora BT\",\"BTHENUM\\\\{0001}\",\"OK\"\r\n\"\",\"X\",\"OK\"\r\n\"Teclado\",\"BTHLE\\\\DEV\",\"Unknown\"\r\nsin,columnas\r\n";
    let r = parse_pnp_bluetooth_csv(out);
    assert_eq!(r.len(), 2);
    assert_eq!(r[0].name, "Impresora BT");
    assert_eq!(r[0].address, "BTHENUM\\\\{0001}");
    assert!(r[0].is_connected);
    assert_eq!(r[1].name, "Teclado");
    assert!(!r[1].is_connected);
}

#[test]
fn profiler_report_devices() {
    let report = vec![ProfilerController {
        connected: vec![ProfilerDevice { name: "Teclado".to_string(), address: Some("AA-BB".to_string()) }],
        not_connected: vec![
            ProfilerDevice { name: "Impresora".to_string(), address: None },
            ProfilerDevice { name: "Raton".to_string(), address: Some("CC-DD".to_string()) },
        ],
    }];
    let r = profiler_devices(&report);
    let got: Vec<(&str, &str, bool)> =
        r.iter().map(|d| (d.name.as_str(), d.address.as_str(), d.is_connected)).collect();
    assert_eq!(got, vec![("Teclado", "AA-BB", true), ("Impresora", "—", false), ("Raton", "CC-DD", false)]);
}

#[test]
fn subnet_scan_addresses() {
    assert_eq!(subnet_base("192.168.1.0"), "192.168.1");
    assert_eq!(subnet_base("10.0"), "10.0");
    assert_eq!(scan_probe_address("192.168.1.0/24"), "192.168.1.1");
    let c = scan_candidates("192.168.1");
    assert_eq!(c.len(), 254);
    assert_eq!(c[0], "192.168.1.1");
    assert_eq!(c[253], "192.168.1.254");
}

#[test]
fn network_summary() {
    let n = network_config("10.1.2.3".to_string(), Some("255.255.0.0".to_string()), Some("10.1.0.1".to_string()));
    assert_eq!((n.ip.as_str(), n.mask.as_str(), n.gateway.as_str()), ("10.1.2.3", "255.255.0.0", "10.1.0.1"));
    let d = network_config("192.168.1.34".to_string(), None, None);
    assert_eq!(d.ip, "192.168.1.34");
    assert_eq!(d.mask, "255.255.255.0");
    assert_eq!(d.gateway, "192.168.1.1");
}

fn queue(name: &str) -> PrinterInfo {
    PrinterInfo {
        name: name.to_string(),
        queue_name: name.to_string(),
        is_default: false,
        status: "Disponible".to_string(),
        source: "os".to_string(),
        connection_type: "os".to_string(),
        address: None,
    }
}

#[test]
fn printer_cache_reuses_then_reloads_after_invalidation() {
    let loads = Cell::new(0);
    let mut cache = printer_cache();
    let first = get_or_load_printers(&mut cache, || {
        loads.set(loads.get() + 1);
        vec![queue("HP")]
    });
    assert_eq!(first, vec![queue("HP")]);
    let second = get_or_load_printers(&mut cache, || {
        loads.set(loads.get() + 1);
        vec![queue("otra")]
    });
    assert_eq!(second, vec![queue("HP")]);
    assert_eq!(loads.get(), 1);
    invalidate_printers(&mut cache);
    let third = get_or_load_printers(&mut cache, || {
        loads.set(loads.get() + 1);
        vec![queue("Zebra")]
    });
    assert_eq!(third, vec![queue("Zebra")]);
    assert_eq!(loads.get(), 2);
}

#[test]
fn usb_cache_reloads_after_invalidation() {
    let mut cache = usb_cache();
    let dev = |p: &str| UsbDevice { display_name: p.to_string(), port: p.to_string() };
    assert_eq!(get_or_load_usb(&mut cache, || vec![dev("COM3")]), vec![dev("COM3")]);
    assert_eq!(get_or_load_usb(&mut cache, || vec![dev("COM4")]), vec![dev("COM3")]);
    invalidate_usb(&mut cache);
    assert_eq!(get_or_load_usb(&mut cache, || vec![dev("COM4")]), vec![dev("COM4")]);
}

#[test]
fn scan_targets_need_a_valid_subnet() {
    let t = scan_targets("192.168.0.0").unwrap();
    assert_eq!(t.len(), 254);
    assert_eq!(t[0], "192.168.0.1");
    assert_eq!(t[253], "192.168.0.254");
    assert_eq!(scan_targets("192.168").unwrap_err(), "IP inválida: '192.168.1'");
    assert_eq!(scan_targets("casa.local.red").unwrap_err(), "IP inválida: 'casa.local.red.1'");
}

#[test]
fn macos_bluetooth_report() {
    let report = r#"{"SPBluetoothDataType":[{"controller_properties":{},
        "device_connected":[{"Teclado":{"device_address":"AA-BB"}}],
        "device_not_connected":[{"Impresora":{"device_minorType":"Printer"}},{"Raton":{"device_address":"CC-DD"}}]}]}"#;
    let r = profiler_bluetooth_devices(report);
    let got: Vec<(&str, &str, bool)> =
        r.iter().map(|d| (d.name.as_str(), d.address.as_str(), d.is_connected)).collect();
    assert_eq!(got, vec![("Teclado", "AA-BB", true), ("Impresora", "—", false), ("Raton", "CC-DD", false)]);
    assert!(profiler_bluetooth_devices("no json").is_empty());
    assert!(profiler_bluetooth_devices("{\"otra\":[]}").is_empty());
}

#[test]
fn interface_mask_and_gateway_from_ip_tool() {
    let addr = "1: lo    inet 127.0.0.1/8 scope host lo\n2: eth0    inet 192.168.10.34/22 brd 192.168.11.255 scope global eth0\n";
    assert_eq!(interface_prefix(addr, "192.168.10.34"), Some(22));
    assert_eq!(interface_prefix(addr, "192.168.10.3"), None);
    assert_eq!(interface_prefix("inet 10.0.0.1/33 x", "10.0.0.1"), None);
    assert_eq!(prefix_mask(22), "255.255.252.0");
    assert_eq!(prefix_mask(24), "255.255.255.0");
    assert_eq!(prefix_mask(0), "0.0.0.0");
    assert_eq!(prefix_mask(32), "255.255.255.255");
    assert_eq!(prefix_mask(9), "255.128.0.0");
    let route = "default via 192.168.8.1 dev eth0 proto dhcp metric 100\n";
    assert_eq!(default_gateway(route), Some("192.168.8.1".to_string()));
    assert_eq!(default_gateway("10.0.0.0/8 dev eth1\n"), None);
}

#[test]
fn scan_keeps_answering_hosts_in_order() {
    let c: Vec<String> = vec!["10.0.0.1".into(), "10.0.0.2".into(), "10.0.0.3".into()];
    assert_eq!(reachable_hosts(&c, &vec![true, false, true]), vec!["10.0.0.1", "10.0.0.3"]);
    assert!(reachable_hosts(&c, &vec![false, false, false]).is_empty());
}

#[test]
fn cache_age_decides_reuse() {
    let mut cache = printer_cache();
    assert_eq!(cache.age_ms(), None);
    let first = cache.get_or_load_aged(None, || vec![queue("HP")]);
    assert_eq!(first, vec![queue("HP")]);
    assert!(cache.age_ms().is_some());
    // Younger than 5 s: the stored listing, the loader's is ignored.
    assert_eq!(cache.get_or_load_aged(Some(4999), || vec![queue("Otra")]), vec![queue("HP")]);
    // 5 s or older: loaded anew and stored.
    assert_eq!(cache.get_or_load_aged(Some(5000), || vec![queue("Zebra")]), vec![queue("Zebra")]);
    assert_eq!(cache.get_or_load_aged(Some(0), || vec![queue("X")]), vec![queue("Zebra")]);
}
