//! ESC/POS output: the built-in test ticket, device paths and result
//! messages of raw port writes, and the image preparation of GDI printing
//! on Windows.

use vstd::prelude::*;
use vstd::string::StringSliceAdditionalSpecFns;

use crate::text::{
    chars_of, concat3, contains, decimal, has_prefix, has_substring, lower_seq, push_all,
    push_decimal, push_repeat, push_str, starts_with, str_eq, string_of, to_lower,
};

verus! {

// ───────────────────────── test ticket ─────────────────────────

/// Columns of text on the paper: 32 on 58 mm paper, 48 otherwise.
pub open spec fn ticket_columns(size: Seq<char>) -> nat {
    if size == "58mm"@ {
        32
    } else {
        48
    }
}

/// Centers `text` (of `byte_len` UTF-8 bytes) in `width` columns by
/// left-padding with spaces; text at least as wide is kept as is.
pub open spec fn centered(text: Seq<char>, byte_len: nat, width: nat) -> Seq<char> {
    if byte_len >= width {
        text
    } else {
        Seq::new(((width - byte_len) / 2) as nat, |_i: int| ' ') + text
    }
}

pub fn center_text(text: &str, width: usize) -> (r: String)
    ensures
        r@ == centered(text@, text.len() as nat, width as nat),
{
    let n = text.len();
    if n >= width {
        return string_of(&chars_of(text));
    }
    let pad = (width - n) / 2;
    let mut v: Vec<char> = Vec::new();
    push_repeat(&mut v, ' ', pad);
    push_str(&mut v, text);
    string_of(&v)
}

/// A rule of `=` across the paper.
pub open spec fn rule(n: nat) -> Seq<u8> {
    Seq::new(n, |_i: int| 0x3du8)
}

/// The test ticket: `ESC @`, bold on (`ESC ! 8`), a rule, the centered
/// title and subtitle, bold off, a rule, three blank lines, `GS V B 0`
/// (feed and cut).
pub open spec fn test_ticket(size: Seq<char>) -> Seq<u8> {
    let col = ticket_columns(size);
    let title = centered("PRINTER MONITOR"@, "PRINTER MONITOR".len() as nat, col);
    let sub = centered("Pagina de prueba"@, "Pagina de prueba".len() as nat, col);
    seq![0x1bu8, 0x40u8, 0x1bu8, 0x21u8, 0x08u8] + rule(col) + seq![0x0au8] + vstd::utf8::encode_utf8(
        title,
    ) + seq![0x0au8] + vstd::utf8::encode_utf8(sub) + seq![0x0au8] + seq![0x1bu8, 0x21u8, 0x00u8]
        + rule(col) + seq![0x0au8] + seq![0x0au8, 0x0au8, 0x0au8] + seq![
        0x1du8,
        0x56u8,
        0x42u8,
        0x00u8,
    ]
}

/// The ESC/POS bytes of the test ticket for a paper profile.
pub fn build_test_escpos(size: &str) -> (d: Vec<u8>)
    ensures
        d@ == test_ticket(size@),
{
    let col: usize = if str_eq(size, "58mm") {
        32
    } else {
        48
    };
    let mut d: Vec<u8> = Vec::new();
    push_all(&mut d, &[0x1b, 0x40]);
    push_all(&mut d, &[0x1b, 0x21, 0x08]);
    push_repeat(&mut d, 0x3d, col);
    d.push(0x0a);
    let title = center_text("PRINTER MONITOR", col);
    push_all(&mut d, title.as_str().as_bytes());
    d.push(0x0a);
    let sub = center_text("Pagina de prueba", col);
    push_all(&mut d, sub.as_str().as_bytes());
    d.push(0x0a);
    push_all(&mut d, &[0x1b, 0x21, 0x00]);
    push_repeat(&mut d, 0x3d, col);
    d.push(0x0a);
    push_all(&mut d, &[0x0a, 0x0a, 0x0a]);
    push_all(&mut d, &[0x1d, 0x56, 0x42, 0x00]);
    assert(d@ =~= test_ticket(size@));
    d
}

// ───────────────────────── raw ports ─────────────────────────

/// The path opened to write to a port: device-interface (`\\?\…`) and
/// device (`\\.\…`) paths as given, other names (`USB001`, `COM3`) under
/// `\\.\`; NUL-terminated for the Windows API.
pub open spec fn device_path(port: Seq<char>) -> Seq<char> {
    if has_prefix(port, "\\\\?\\"@) || has_prefix(port, "\\\\.\\"@) {
        port + "\0"@
    } else {
        "\\\\.\\"@ + port + "\0"@
    }
}

pub fn windows_device_path(port: &str) -> (r: String)
    ensures
        r@ == device_path(port@),
{
    let p = chars_of(port);
    if starts_with(&p, &chars_of("\\\\?\\")) || starts_with(&p, &chars_of("\\\\.\\")) {
        crate::text::concat2(port, "\0")
    } else {
        concat3("\\\\.\\", port, "\0")
    }
}

/// The outcome of a raw write of `len` bytes of which `written` went out.
pub fn port_write_result(port: &str, written: u32, len: usize) -> (r: Result<String, String>)
    ensures
        written as int == len as int ==> (r matches Ok(s) && s@ == "ESC/POS enviado a "@ + port@
            + " ("@ + decimal(written as nat) + " bytes)"@),
        written as int != len as int ==> (r matches Err(e) && e@ == "Se escribieron "@ + decimal(
            written as nat,
        ) + "/"@ + decimal(len as nat) + " bytes a "@ + port@),
{
    if written as usize != len || (written as u64) != (len as u64) {
        let mut v = chars_of("Se escribieron ");
        push_decimal(&mut v, written as u64);
        push_str(&mut v, "/");
        push_decimal(&mut v, len as u64);
        push_str(&mut v, " bytes a ");
        push_str(&mut v, port);
        Err(string_of(&v))
    } else {
        let mut v = chars_of("ESC/POS enviado a ");
        push_str(&mut v, port);
        push_str(&mut v, " (");
        push_decimal(&mut v, written as u64);
        push_str(&mut v, " bytes)");
        Ok(string_of(&v))
    }
}

/// `IP:PORT`.
pub fn socket_address(ip: &str, port: u16) -> (r: String)
    ensures
        r@ == ip@ + ":"@ + decimal(port as nat),
{
    let mut v = chars_of(ip);
    push_str(&mut v, ":");
    push_decimal(&mut v, port as u64);
    string_of(&v)
}

// ───────────────────────── spooler USB ports ─────────────────────────

/// A quote doubled, for the inside of a single-quoted PowerShell string.
pub open spec fn quotes_doubled(s: Seq<char>) -> Seq<char>
    decreases s.len(),
{
    if s.len() == 0 {
        seq![]
    } else if s[0] == '\'' {
        seq!['\'', '\''] + quotes_doubled(s.drop_first())
    } else {
        seq![s[0]] + quotes_doubled(s.drop_first())
    }
}

proof fn lemma_quotes_doubled_push(s: Seq<char>, c: char)
    ensures
        quotes_doubled(s.push(c)) == quotes_doubled(s) + (if c == '\'' {
            seq!['\'', '\'']
        } else {
            seq![c]
        }),
    decreases s.len(),
{
    if s.len() == 0 {
        assert(s.push(c).drop_first() =~= seq![]);
        assert(quotes_doubled(seq![]) =~= seq![]);
        assert(quotes_doubled(s.push(c)) =~= quotes_doubled(s) + (if c == '\'' {
            seq!['\'', '\'']
        } else {
            seq![c]
        }));
    } else {
        lemma_quotes_doubled_push(s.drop_first(), c);
        assert(s.push(c).drop_first() =~= s.drop_first().push(c));
        assert(quotes_doubled(s.push(c)) =~= quotes_doubled(s) + (if c == '\'' {
            seq!['\'', '\'']
        } else {
            seq![c]
        }));
    }
}

fn double_quotes(s: &str) -> (r: Vec<char>)
    ensures
        r@ == quotes_doubled(s@),
{
    let v = chars_of(s);
    let mut out: Vec<char> = Vec::new();
    let mut i: usize = 0;
    while i < v.len()
        invariant
            i <= v@.len(),
            v@ == s@,
            out@ == quotes_doubled(v@.take(i as int)),
        decreases v@.len() - i,
    {
        let c = v[i];
        out.push(c);
        if c == '\'' {
            out.push('\'');
        }
        proof {
            lemma_quotes_doubled_push(v@.take(i as int), c);
            assert(v@.take(i + 1) =~= v@.take(i as int).push(c));
        }
        i += 1;
    }
    assert(v@.take(v@.len() as int) =~= v@);
    out
}

/// Removes the temporary queue, ignoring its absence.
pub fn remove_temp_queue_script() -> (r: String)
    ensures
        r@ == "Remove-Printer -Name '__PM_USB__' -ErrorAction SilentlyContinue"@,
{
    string_of(&chars_of("Remove-Printer -Name '__PM_USB__' -ErrorAction SilentlyContinue"))
}

/// Creates the temporary queue on `port` with the raw text driver.
pub fn add_temp_queue_script(port: &str) -> (r: String)
    ensures
        r@ == "Add-Printer -Name '__PM_USB__' -PortName '"@ + quotes_doubled(port@)
            + "' -DriverName 'Generic / Text Only' -ErrorAction Stop"@,
{
    let mut v = chars_of("Add-Printer -Name '__PM_USB__' -PortName '");
    let q = double_quotes(port);
    push_all(&mut v, q.as_slice());
    push_str(&mut v, "' -DriverName 'Generic / Text Only' -ErrorAction Stop");
    string_of(&v)
}

/// The error reported when the temporary queue cannot be created.
pub fn temp_queue_error(port: &str, error: &str) -> (r: String)
    ensures
        r@ == "No se pudo crear cola temporal para "@ + port@ + ": "@ + error@,
{
    crate::text::concat4("No se pudo crear cola temporal para ", port, ": ", error)
}

// ───────────────────────── GDI printing ─────────────────────────

/// Rendering width in pixels for GDI printing: 576 for 50/58 mm paper,
/// 832 otherwise.
pub fn gdi_target_width(width: &str) -> (px: u32)
    ensures
        px == (if width@ == "50mm"@ || width@ == "58mm"@ { 576u32 } else { 832u32 }),
{
    if str_eq(width, "50mm") || str_eq(width, "58mm") {
        576
    } else {
        832
    }
}

/// Virtual printers (PDF, XPS, OneNote, fax) need an output file.
pub open spec fn is_virtual_printer_name(name: Seq<char>) -> bool {
    let n = lower_seq(name);
    has_substring(n, "pdf"@) || has_substring(n, "xps"@) || has_substring(n, "onenote"@)
        || has_substring(n, "fax"@)
}

pub fn is_virtual_printer(name: &str) -> (b: bool)
    ensures
        b == is_virtual_printer_name(name@),
{
    let n = to_lower(&chars_of(name));
    contains(&n, &chars_of("pdf")) || contains(&n, &chars_of("xps")) || contains(
        &n,
        &chars_of("onenote"),
    ) || contains(&n, &chars_of("fax"))
}

/// Bytes per row of a 24-bit DIB: three per pixel, rounded up to a multiple
/// of four.
pub open spec fn dib_stride(w: int) -> int {
    (3 * w + 3) / 4 * 4
}

proof fn lemma_round_down4(v: usize)
    ensures
        v & !3usize == v - v % 4,
{
    assert(v & !3usize == v - v % 4) by (bit_vector);
}

/// RGBA pixels (row-major, `w × h`) as a top-down 24-bit DIB: each pixel
/// becomes blue, green, red; every row is padded with zeros to
/// [`dib_stride`] bytes.
pub open spec fn dib_byte(raw: Seq<u8>, w: int, y: int, k: int) -> u8 {
    if k < 3 * w {
        raw[4 * (y * w + k / 3) + (2 - k % 3)]
    } else {
        0
    }
}

pub fn rgba_to_bgr_dib(raw: &Vec<u8>, w: u32, h: u32) -> (bgr: Vec<u8>)
    requires
        raw@.len() == 4 * (w * h),
        3 * w + 3 <= usize::MAX,
    ensures
        bgr@.len() == dib_stride(w as int) * h,
        forall|y: int, k: int|
            0 <= y < h && 0 <= k < dib_stride(w as int) ==> #[trigger] bgr@[y * dib_stride(w as int)
                + k] == dib_byte(raw@, w as int, y, k),
{
    let wu = w as usize;
    let hu = h as usize;
    let rl = raw.len();
    proof {
        assert(wu * hu <= rl) by (nonlinear_arith)
            requires
                rl == 4 * (wu * hu),
        ;
        assert(3 * wu + 3 <= 4 * wu + 3);
    }
    let base = wu * 3 + 3;
    let stride = base & !3;
    proof {
        lemma_round_down4(base);
        assert((3 * wu + 3) - (3 * wu + 3) % 4 == dib_stride(wu as int));
    }
    let ghost st = stride as int;
    let mut bgr: Vec<u8> = Vec::new();
    let mut y: usize = 0;
    while y < hu
        invariant
            wu == w,
            hu == h,
            rl == raw@.len(),
            raw@.len() == 4 * (w * h),
            st == stride,
            st == dib_stride(w as int),
            st >= 3 * wu,
            y <= hu,
            bgr@.len() == y * st,
            forall|yy: int, k: int|
                0 <= yy < y && 0 <= k < st ==> #[trigger] bgr@[yy * st + k] == dib_byte(
                    raw@,
                    w as int,
                    yy,
                    k,
                ),
        decreases hu - y,
    {
        let ghost row_start = bgr@.len() as int;
        let mut k: usize = 0;
        while k < stride
            invariant
                wu == w,
                hu == h,
                rl == raw@.len(),
                raw@.len() == 4 * (w * h),
                st == stride,
                st >= 3 * wu,
                y < hu,
                k <= stride,
                row_start == y * st,
                bgr@.len() == row_start + k,
                forall|yy: int, kk: int|
                    0 <= yy < y && 0 <= kk < st ==> #[trigger] bgr@[yy * st + kk] == dib_byte(
                        raw@,
                        w as int,
                        yy,
                        kk,
                    ),
                forall|kk: int| 0 <= kk < k ==> #[trigger] bgr@[row_start + kk] == dib_byte(raw@, w as int, y as int, kk),
            decreases stride - k,
        {
            let x = k / 3;
            let c = k % 3;
            if k < wu * 3 {
                proof {
                    assert(x < wu);
                    assert(0 <= y * wu + x < wu * hu) by (nonlinear_arith)
                        requires
                            x < wu,
                            y < hu,
                    ;
                    assert(4 * (y * wu + x) + 3 < 4 * (wu * hu)) by (nonlinear_arith)
                        requires
                            y * wu + x < wu * hu,
                    ;
                }
                let s = (y * wu + x) * 4;
                bgr.push(raw[s + (2 - c)]);
            } else {
                bgr.push(0);
            }
            proof {
                assert forall|yy: int, kk: int|
                    0 <= yy < y && 0 <= kk < st implies #[trigger] bgr@[yy * st + kk] == dib_byte(
                    raw@,
                    w as int,
                    yy,
                    kk,
                ) by {
                    assert(yy * st + kk < y * st) by (nonlinear_arith)
                        requires
                            0 <= yy < y,
                            0 <= kk < st,
                    ;
                }
            }
            k += 1;
        }
        proof {
            assert forall|yy: int, kk: int|
                0 <= yy < y + 1 && 0 <= kk < st implies #[trigger] bgr@[yy * st + kk] == dib_byte(
                raw@,
                w as int,
                yy,
                kk,
            ) by {
                if yy == y {
                    assert(bgr@[row_start + kk] == dib_byte(raw@, w as int, y as int, kk));
                }
            }
            assert((y + 1) * st == y * st + st) by (nonlinear_arith);
        }
        y += 1;
    }
    proof {
        assert(hu * st == st * hu) by (nonlinear_arith);
    }
    bgr
}

/// Rounding toward zero of `a / b` for `b > 0` (Rust's `/` on signed
/// integers).
pub open spec fn div_toward_zero(a: int, b: int) -> int {
    if a >= 0 {
        a / b
    } else {
        -((-a) / b)
    }
}

/// Height on the page of a `bw × bh` bitmap stretched to the page width
/// `page_w`, keeping its aspect ratio, and cut to the page height.
pub open spec fn gdi_dest_height_spec(bw: u32, bh: u32, page_w: i32, page_h: i32) -> i32 {
    let den: int = if bw >= 1 { bw as int } else { 1 };
    let q = div_toward_zero(bh as int * page_w as int, den) as i32;
    if q <= page_h {
        q
    } else {
        page_h
    }
}

pub fn gdi_dest_height(bw: u32, bh: u32, page_w: i32, page_h: i32) -> (r: i32)
    ensures
        r == gdi_dest_height_spec(bw, bh, page_w, page_h),
{
    let den: i64 = if bw >= 1 {
        bw as i64
    } else {
        1
    };
    proof {
        assert(-0x7fff_ffff_ffff_ffff <= bh as int * page_w as int <= 0x7fff_ffff_ffff_ffff)
            by (nonlinear_arith)
            requires
                0 <= bh <= 0xffff_ffff,
                -0x8000_0000 <= page_w <= 0x7fff_ffff,
        ;
    }
    let num: i64 = (bh as i64) * (page_w as i64);
    let q: i64 = if num >= 0 {
        num / den
    } else {
        -((-num) / den)
    };
    let q32 = q as i32;
    if q32 <= page_h {
        q32
    } else {
        page_h
    }
}

} // verus!
