use printer_monitor::escpos::{
    add_temp_queue_script, build_test_escpos, center_text, gdi_dest_height, gdi_target_width,
    is_virtual_printer, port_write_result, remove_temp_queue_script, rgba_to_bgr_dib,
    socket_address, temp_queue_error, windows_device_path,
};

fn ticket(sep_len: usize, title: &str, sub: &str) -> Vec<u8> {
    let sep = "=".repeat(sep_len);
    let mut d: Vec<u8> = vec![0x1b, b'@', 0x1b, b'!', 0x08];
    d.extend_from_slice(sep.as_bytes());
    d.push(b'\n');
    d.extend_from_slice(title.as_bytes());
    d.push(b'\n');
    d.extend_from_slice(sub.as_bytes());
    d.push(b'\n');
    d.extend_from_slice(&[0x1b, b'!', 0x00]);
    d.extend_from_slice(sep.as_bytes());
    d.extend_from_slice(b"\n\n\n\n");
    d.extend_from_slice(&[0x1d, b'V', b'B', 0x00]);
    d
}

#[test]
fn test_ticket_58mm_has_32_columns() {
    let expected = ticket(32, "        PRINTER MONITOR", "        Pagina de prueba");
    assert_eq!(build_test_escpos("58mm"), expected);
}

#[test]
fn test_ticket_other_sizes_have_48_columns() {
    let expected = ticket(48, "                PRINTER MONITOR", "                Pagina de prueba");
    assert_eq!(build_test_escpos("80mm"), expected);
    assert_eq!(build_test_escpos(""), expected);
}

#[test]
fn center_text_pads_left_by_half_the_gap() {
    assert_eq!(center_text("ab", 7), "  ab");
    assert_eq!(center_text("abc", 9), "   abc");
}

#[test]
fn center_text_keeps_wide_text() {
    assert_eq!(center_text("abcdef", 6), "abcdef");
    assert_eq!(center_text("abcdefgh", 4), "abcdefgh");
}

#[test]
fn center_text_counts_utf8_bytes() {
    // "ñ" is two bytes: the gap is 6 - 2 = 4, half of it is 2.
    assert_eq!(center_text("ñ", 6), "  ñ");
}

#[test]
fn device_paths_of_ports() {
    assert_eq!(windows_device_path("USB001"), "\\\\.\\USB001\0");
    assert_eq!(windows_device_path("COM3"), "\\\\.\\COM3\0");
    assert_eq!(windows_device_path("\\\\?\\USB#VID_0416"), "\\\\?\\USB#VID_0416\0");
    assert_eq!(windows_device_path("\\\\.\\COM9"), "\\\\.\\COM9\0");
}

#[test]
fn port_write_complete_and_partial() {
    assert_eq!(port_write_result("COM3", 12, 12), Ok("ESC/POS enviado a COM3 (12 bytes)".to_string()));
    assert_eq!(port_write_result("COM3", 5, 12), Err("Se escribieron 5/12 bytes a COM3".to_string()));
}

#[test]
fn socket_address_joins_ip_and_port() {
    assert_eq!(socket_address("192.168.1.50", 9100), "192.168.1.50:9100");
    assert_eq!(socket_address("10.0.0.1", 0), "10.0.0.1:0");
}

#[test]
fn temporary_queue_scripts() {
    assert_eq!(
        remove_temp_queue_script(),
        "Remove-Printer -Name '__PM_USB__' -ErrorAction SilentlyContinue"
    );
    assert_eq!(
        add_temp_queue_script("USB001"),
        "Add-Printer -Name '__PM_USB__' -PortName 'USB001' -DriverName 'Generic / Text Only' -ErrorAction Stop"
    );
    assert_eq!(
        add_temp_queue_script("O'Port"),
        "Add-Printer -Name '__PM_USB__' -PortName 'O''Port' -DriverName 'Generic / Text Only' -ErrorAction Stop"
    );
    assert_eq!(
        temp_queue_error("USB001", "acceso denegado"),
        "No se pudo crear cola temporal para USB001: acceso denegado"
    );
}

#[test]
fn gdi_widths_by_paper() {
    assert_eq!(gdi_target_width("50mm"), 576);
    assert_eq!(gdi_target_width("58mm"), 576);
    assert_eq!(gdi_target_width("80mm"), 832);
    assert_eq!(gdi_target_width("A4"), 832);
}

#[test]
fn virtual_printers_are_recognised() {
    assert!(is_virtual_printer("Microsoft Print to PDF"));
    assert!(is_virtual_printer("Microsoft XPS Document Writer"));
    assert!(is_virtual_printer("OneNote (Desktop)"));
    assert!(is_virtual_printer("Fax"));
    assert!(!is_virtual_printer("EPSON TM-T20"));
}

#[test]
fn dib_rows_are_bgr_and_padded() {
    let raw = vec![1u8, 2, 3, 4, 5, 6, 7, 8];
    // One pixel per row: 3 bytes, padded to 4.
    assert_eq!(rgba_to_bgr_dib(&raw, 1, 2), vec![3u8, 2, 1, 0, 7, 6, 5, 0]);
    let raw2 = vec![10u8, 20, 30, 255, 40, 50, 60, 255];
    // Two pixels: 6 bytes, padded to 8.
    assert_eq!(rgba_to_bgr_dib(&raw2, 2, 1), vec![30u8, 20, 10, 60, 50, 40, 0, 0]);
}

#[test]
fn gdi_height_keeps_aspect_and_fits_page() {
    assert_eq!(gdi_dest_height(576, 500, 4800, 6000), 4166);
    assert_eq!(gdi_dest_height(576, 1000, 4800, 6000), 6000);
    assert_eq!(gdi_dest_height(0, 3, 10, 100), 30);
}
