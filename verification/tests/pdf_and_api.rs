use std::cell::Cell;

use printer_monitor::api::{
    base64_decode, base64_error_message, handle_print, pdf_from_decoding, request_authorized, Base64Error,
};
use printer_monitor::pdf::{api_token_from_nanos, build_pdf_single_page, pdf_escape_text};

fn unescape(s: &str) -> String {
    let mut out = String::new();
    let mut it = s.chars();
    while let Some(c) = it.next() {
        if c == '\\' {
            if let Some(n) = it.next() {
                out.push(n);
                continue;
            }
        }
        out.push(c);
    }
    out
}

#[test]
fn pdf_escape_backslash_and_parentheses() {
    assert_eq!(pdf_escape_text("a(b)\\c"), "a\\(b\\)\\\\c");
    assert_eq!(pdf_escape_text("Ruta PDF del SO: OK"), "Ruta PDF del SO: OK");
    assert_eq!(pdf_escape_text(""), "");
}

#[test]
fn pdf_escape_reads_back() {
    for s in ["(x)", "\\\\", "a)b(c\\", "ñandú (ok)", ""] {
        assert_eq!(unescape(&pdf_escape_text(s)), s);
    }
}

fn expected_pdf(w: &str, h: &str, content: &str) -> Vec<u8> {
    let mut out: Vec<u8> = b"%PDF-1.4\n%".to_vec();
    out.extend_from_slice(&[0xE2, 0xE3, 0xCF, 0xD3]);
    out.push(b'\n');
    let bodies = [
        "<< /Type /Catalog /Pages 2 0 R >>".to_string(),
        "<< /Type /Pages /Kids [3 0 R] /Count 1 >>".to_string(),
        format!(
            "<< /Type /Page /Parent 2 0 R /MediaBox [0 0 {w} {h}] /Resources << /Font << /F1 5 0 R >> >> /Contents 4 0 R >>"
        ),
        format!("<< /Length {} >>\nstream\n{}\nendstream", content.len(), content),
        "<< /Type /Font /Subtype /Type1 /BaseFont /Helvetica >>".to_string(),
    ];
    let mut offsets = Vec::new();
    for (i, b) in bodies.iter().enumerate() {
        offsets.push(out.len());
        out.extend_from_slice(format!("{} 0 obj\n{}\nendobj\n", i + 1, b).as_bytes());
    }
    let xref = out.len();
    out.extend_from_slice(b"xref\n0 6\n0000000000 65535 f \n");
    for off in offsets {
        out.extend_from_slice(format!("{:010} 00000 n \n", off).as_bytes());
    }
    out.extend_from_slice(
        format!("trailer\n<< /Size 6 /Root 1 0 R >>\nstartxref\n{xref}\n%%EOF\n").as_bytes(),
    );
    out
}

#[test]
fn single_page_pdf_layout() {
    let content = "BT\n/F1 9.0 Tf\n1 0 0 1 6.0 216.77 Tm\n(PRINTER MONITOR) Tj\nET";
    let pdf = build_pdf_single_page("226.77", "226.77", content);
    assert_eq!(pdf, expected_pdf("226.77", "226.77", content));
    assert!(pdf.starts_with(b"%PDF-1.4\n%"));
    assert!(pdf.ends_with(b"%%EOF\n"));
}

fn find(hay: &[u8], needle: &[u8], from: usize) -> Option<usize> {
    (from..hay.len().saturating_sub(needle.len()) + 1).find(|&i| &hay[i..i + needle.len()] == needle)
}

#[test]
fn xref_offsets_point_at_objects() {
    let pdf = build_pdf_single_page("595.28", "841.89", "q Q ñ");
    let text = pdf.clone();
    let sx = find(&text, b"startxref\n", 0).unwrap() + "startxref\n".len();
    let end = find(&text, b"\n", sx).unwrap();
    let xref_pos: usize = std::str::from_utf8(&text[sx..end]).unwrap().parse().unwrap();
    assert!(text[xref_pos..].starts_with(b"xref\n0 6\n"));
    let table = xref_pos + "xref\n0 6\n0000000000 65535 f \n".len();
    for k in 0..5 {
        let entry = &text[table + 20 * k..table + 20 * k + 10];
        let off: usize = std::str::from_utf8(entry).unwrap().parse().unwrap();
        let head = format!("{} 0 obj\n", k + 1);
        assert!(text[off..].starts_with(head.as_bytes()));
    }
}

#[test]
fn api_token_is_hex_of_masked_clock() {
    assert_eq!(api_token_from_nanos(0), "deadcafe1337");
    assert_eq!(api_token_from_nanos(0xDEAD_CAFE_1337), "0");
    assert_eq!(api_token_from_nanos(1), "deadcafe1336");
    assert_eq!(
        api_token_from_nanos(1_700_000_000_123_456_789),
        format!("{:x}", 1_700_000_000_123_456_789u128 ^ 0xDEAD_CAFE_1337u128)
    );
}

#[test]
fn base64_trims_and_decodes() {
    assert_eq!(base64_decode("  aGVsbG8=\n"), Ok(b"hello".to_vec()));
    assert_eq!(base64_decode("JVBERi0xLjQ="), Ok(b"%PDF-1.4".to_vec()));
    assert_eq!(base64_decode(""), Ok(Vec::new()));
}

#[test]
fn base64_rejects_invalid_input() {
    let e = base64_decode("***").unwrap_err();
    assert!(e.starts_with("PDF base64 inválido: "));
    assert!(e.len() > "PDF base64 inválido: ".len());
    let e2 = base64_decode("aGVsbG8").unwrap_err();
    assert!(e2.starts_with("PDF base64 inválido: "));
}

#[test]
fn token_check_of_requests() {
    assert!(request_authorized(Some("abc"), "abc"));
    assert!(!request_authorized(Some("abd"), "abc"));
    assert!(!request_authorized(None, "abc"));
    assert!(request_authorized(None, ""));
}

#[test]
fn print_request_with_wrong_token_is_refused_without_running() {
    let ran = Cell::new(false);
    let (status, resp) = handle_print(Some("nope"), "tok", || {
        ran.set(true);
        Ok("impreso".to_string())
    });
    assert_eq!(status, 401);
    assert!(!resp.ok);
    assert_eq!(resp.message, "Token inválido.");
    assert!(!ran.get());
}

#[test]
fn print_request_reports_job_outcome() {
    let (status, resp) = handle_print(Some("tok"), "tok", || Ok("Impreso en Caja".to_string()));
    assert_eq!(status, 200);
    assert!(resp.ok);
    assert_eq!(resp.message, "Impreso en Caja");
    let (status2, resp2) = handle_print(Some("tok"), "tok", || Err("sin papel".to_string()));
    assert_eq!(status2, 200);
    assert!(!resp2.ok);
    assert_eq!(resp2.message, "sin papel");
}

#[test]
fn decoded_pdf_or_error_text() {
    assert_eq!(pdf_from_decoding(Ok(vec![1, 2, 3])), Ok(vec![1, 2, 3]));
    assert_eq!(
        pdf_from_decoding(Err(Base64Error::InvalidPadding)),
        Err("PDF base64 inválido: Invalid padding".to_string())
    );
}

#[test]
fn base64_error_texts() {
    assert_eq!(base64_error_message(Base64Error::InvalidByte(3, 42)), "Invalid symbol 42, offset 3.");
    assert_eq!(base64_error_message(Base64Error::InvalidLength(7)), "Invalid input length: 7");
    assert_eq!(base64_error_message(Base64Error::InvalidLastSymbol(2, 72)), "Invalid last symbol 72, offset 2.");
    assert_eq!(base64_error_message(Base64Error::InvalidPadding), "Invalid padding");
    // The decoder's own text follows the prefix.
    assert_eq!(base64_decode("***").unwrap_err(), "PDF base64 inválido: Invalid symbol 42, offset 0.");
    assert_eq!(base64_decode("aGVsbG8").unwrap_err(), "PDF base64 inválido: Invalid padding");
}
