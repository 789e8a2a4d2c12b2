//! Minimal PDF writing: text escaping for content streams and the layout of
//! a single-page PDF file with its cross-reference table.

use vstd::prelude::*;
use vstd::string::StringSliceAdditionalSpecFns;

use crate::text::{chars_of, decimal, push_all, push_decimal, push_zero_padded, string_of, zero_padded};

verus! {

// ───────────────────────── string escaping ─────────────────────────

/// The escape of one character inside a PDF literal string `( … )`.
pub open spec fn escape_char(c: char) -> Seq<char> {
    if c == '\\' {
        seq!['\\', '\\']
    } else if c == '(' {
        seq!['\\', '(']
    } else if c == ')' {
        seq!['\\', ')']
    } else {
        seq![c]
    }
}

/// Backslash, `(` and `)` each get a backslash in front; other characters
/// are kept.
pub open spec fn pdf_escaped(s: Seq<char>) -> Seq<char>
    decreases s.len(),
{
    if s.len() == 0 {
        seq![]
    } else {
        escape_char(s[0]) + pdf_escaped(s.drop_first())
    }
}

/// How a PDF reader reads a literal string: a backslash takes the next
/// character literally.
pub open spec fn pdf_unescaped(s: Seq<char>) -> Seq<char>
    decreases s.len(),
{
    if s.len() == 0 {
        seq![]
    } else if s[0] == '\\' && s.len() >= 2 {
        seq![s[1]] + pdf_unescaped(s.skip(2))
    } else {
        seq![s[0]] + pdf_unescaped(s.drop_first())
    }
}

proof fn lemma_escaped_append(s: Seq<char>, c: char)
    ensures
        pdf_escaped(s.push(c)) == pdf_escaped(s) + escape_char(c),
    decreases s.len(),
{
    if s.len() == 0 {
        assert(s.push(c).drop_first() =~= seq![]);
        assert(pdf_escaped(seq![]) =~= seq![]);
        assert(pdf_escaped(s.push(c)) =~= escape_char(c));
    } else {
        lemma_escaped_append(s.drop_first(), c);
        assert(s.push(c).drop_first() =~= s.drop_first().push(c));
        assert(pdf_escaped(s.push(c)) =~= pdf_escaped(s) + escape_char(c));
    }
}

/// Reading an escaped string gives back the text that was escaped.
pub proof fn lemma_pdf_escape_roundtrip(s: Seq<char>)
    ensures
        pdf_unescaped(pdf_escaped(s)) == s,
    decreases s.len(),
{
    if s.len() > 0 {
        lemma_pdf_escape_roundtrip(s.drop_first());
        let e = pdf_escaped(s);
        let rest = pdf_escaped(s.drop_first());
        let c = s[0];
        if c == '\\' || c == '(' || c == ')' {
            assert(e.skip(2) =~= rest);
        } else {
            assert(e.drop_first() =~= rest);
        }
        assert(seq![c] + s.drop_first() =~= s);
    } else {
        assert(pdf_escaped(s) =~= seq![]);
    }
}

/// Escapes text for a PDF literal string (`\` → `\\`, `(` → `\(`, `)` → `\)`).
pub fn pdf_escape_text(input: &str) -> (r: String)
    ensures
        r@ == pdf_escaped(input@),
{
    let v = chars_of(input);
    let mut out: Vec<char> = Vec::new();
    let mut i: usize = 0;
    while i < v.len()
        invariant
            i <= v@.len(),
            v@ == input@,
            out@ == pdf_escaped(v@.take(i as int)),
        decreases v@.len() - i,
    {
        let c = v[i];
        if c == '\\' || c == '(' || c == ')' {
            out.push('\\');
        }
        out.push(c);
        proof {
            lemma_escaped_append(v@.take(i as int), c);
            assert(v@.take(i + 1) =~= v@.take(i as int).push(c));
        }
        i += 1;
    }
    assert(v@.take(v@.len() as int) =~= v@);
    string_of(&out)
}

// ───────────────────────── single-page PDF ─────────────────────────

/// Bytes of ASCII text (each character taken as its code).
pub open spec fn ascii(s: Seq<char>) -> Seq<u8> {
    s.map_values(|c: char| (c as u32) as u8)
}

/// The UTF-8 bytes of a string literal.
#[verifier::opaque]
pub open spec fn lit(s: &str) -> Seq<u8> {
    s.spec_bytes()
}

/// `N 0 obj\n<body>\nendobj\n`.
pub open spec fn pdf_object(id: nat, body: Seq<u8>) -> Seq<u8> {
    ascii(decimal(id)) + lit(" 0 obj\n") + body + lit("\nendobj\n")
}

/// `%PDF-1.4`, then a comment line of four high bytes marking the file as
/// binary.
pub open spec fn pdf_header() -> Seq<u8> {
    lit("%PDF-1.4\n%") + seq![0xE2u8, 0xE3u8, 0xCFu8, 0xD3u8] + lit("\n")
}

pub open spec fn page_dict(width: Seq<u8>, height: Seq<u8>) -> Seq<u8> {
    lit("<< /Type /Page /Parent 2 0 R /MediaBox [0 0 ") + width + lit(" ") + height + lit(
        "] /Resources << /Font << /F1 5 0 R >> >> /Contents 4 0 R >>",
    )
}

pub open spec fn stream_dict(content: Seq<u8>) -> Seq<u8> {
    lit("<< /Length ") + ascii(decimal(content.len())) + lit(" >>\nstream\n") + content + lit(
        "\nendstream",
    )
}

/// The bodies of objects 1 to 5: catalog, page tree, page, content stream
/// and font.
pub open spec fn object_bodies(width: Seq<u8>, height: Seq<u8>, content: Seq<u8>) -> Seq<Seq<u8>> {
    seq![
        lit("<< /Type /Catalog /Pages 2 0 R >>"),
        lit("<< /Type /Pages /Kids [3 0 R] /Count 1 >>"),
        page_dict(width, height),
        stream_dict(content),
        lit("<< /Type /Font /Subtype /Type1 /BaseFont /Helvetica >>"),
    ]
}

/// The first `k` objects, numbered from 1.
pub open spec fn objects_upto(bodies: Seq<Seq<u8>>, k: int) -> Seq<u8>
    decreases k,
{
    if k <= 0 {
        seq![]
    } else {
        objects_upto(bodies, k - 1) + pdf_object(k as nat, bodies[k - 1])
    }
}

/// Byte position of object `k + 1` in the file.
pub open spec fn object_offset(bodies: Seq<Seq<u8>>, k: int) -> nat {
    pdf_header().len() + objects_upto(bodies, k).len()
}

/// Cross-reference entries of the first `k` objects.
pub open spec fn xref_entries(bodies: Seq<Seq<u8>>, k: int) -> Seq<u8>
    decreases k,
{
    if k <= 0 {
        seq![]
    } else {
        xref_entries(bodies, k - 1) + ascii(zero_padded(object_offset(bodies, k - 1), 10)) + lit(
            " 00000 n \n",
        )
    }
}

/// The whole file: header, the five objects, the cross-reference table and
/// the trailer pointing at it.
pub open spec fn single_page_pdf(width: Seq<u8>, height: Seq<u8>, content: Seq<u8>) -> Seq<u8> {
    let bodies = object_bodies(width, height, content);
    pdf_header() + objects_upto(bodies, 5) + xref_section(bodies)
}

/// The cross-reference table and the trailer, whose `startxref` gives the
/// position of the table.
pub open spec fn xref_section(bodies: Seq<Seq<u8>>) -> Seq<u8> {
    lit("xref\n0 ") + (ascii(decimal(6)) + lit("\n") + lit("0000000000 65535 f \n") + xref_entries(
        bodies,
        5,
    ) + lit("trailer\n<< /Size ") + ascii(decimal(6)) + lit(" /Root 1 0 R >>\nstartxref\n")
        + ascii(decimal(object_offset(bodies, 5))) + lit("\n%%EOF\n"))
}

fn push_ascii(out: &mut Vec<u8>, s: &Vec<char>)
    ensures
        final(out)@ == old(out)@ + ascii(s@),
{
    let ghost start = out@;
    let mut i: usize = 0;
    while i < s.len()
        invariant
            i <= s@.len(),
            out@ == start + ascii(s@.take(i as int)),
        decreases s@.len() - i,
    {
        let c = s[i];
        let u = c as u32;
        out.push(u as u8);
        assert(ascii(s@.take(i + 1)) =~= ascii(s@.take(i as int)).push((c as u32) as u8));
        i += 1;
    }
    assert(s@.take(s@.len() as int) =~= s@);
}

fn push_number(out: &mut Vec<u8>, n: u64)
    ensures
        final(out)@ == old(out)@ + ascii(decimal(n as nat)),
{
    let mut d: Vec<char> = Vec::new();
    push_decimal(&mut d, n);
    assert(d@ =~= decimal(n as nat));
    push_ascii(out, &d);
}

fn push_padded(out: &mut Vec<u8>, n: u64, w: usize)
    ensures
        final(out)@ == old(out)@ + ascii(zero_padded(n as nat, w as nat)),
{
    let mut d: Vec<char> = Vec::new();
    push_zero_padded(&mut d, n, w);
    assert(d@ =~= zero_padded(n as nat, w as nat));
    push_ascii(out, &d);
}

fn push_lit(out: &mut Vec<u8>, s: &str)
    ensures
        final(out)@ == old(out)@ + lit(s),
{
    reveal(lit);
    push_all(out, s.as_bytes());
}

fn push_object(out: &mut Vec<u8>, offsets: &mut Vec<usize>, id: u64, body: &Vec<u8>)
    ensures
        final(out)@ == old(out)@ + pdf_object(id as nat, body@),
        final(offsets)@.len() == old(offsets)@.len() + 1,
        forall|i: int| 0 <= i < old(offsets)@.len() ==> #[trigger] final(offsets)@[i] == old(offsets)@[i],
        final(offsets)@[old(offsets)@.len() as int] == old(out)@.len(),
{
    offsets.push(out.len());
    push_number(out, id);
    push_lit(out, " 0 obj\n");
    push_all(out, body.as_slice());
    push_lit(out, "\nendobj\n");
}

fn lit_vec(s: &str) -> (v: Vec<u8>)
    ensures
        v@ == lit(s),
{
    let mut v: Vec<u8> = Vec::new();
    push_lit(&mut v, s);
    v
}

fn page_dict_bytes(page_width: &str, page_height: &str) -> (b: Vec<u8>)
    ensures
        b@ == page_dict(page_width.spec_bytes(), page_height.spec_bytes()),
{
    let mut b = lit_vec("<< /Type /Page /Parent 2 0 R /MediaBox [0 0 ");
    push_all(&mut b, page_width.as_bytes());
    push_lit(&mut b, " ");
    push_all(&mut b, page_height.as_bytes());
    push_lit(&mut b, "] /Resources << /Font << /F1 5 0 R >> >> /Contents 4 0 R >>");
    assert(b@ =~= page_dict(page_width.spec_bytes(), page_height.spec_bytes()));
    b
}

fn stream_dict_bytes(content_stream: &str) -> (b: Vec<u8>)
    ensures
        b@ == stream_dict(content_stream.spec_bytes()),
{
    let stream = content_stream.as_bytes();
    let mut b = lit_vec("<< /Length ");
    push_number(&mut b, stream.len() as u64);
    push_lit(&mut b, " >>\nstream\n");
    push_all(&mut b, stream);
    push_lit(&mut b, "\nendstream");
    assert(b@ =~= stream_dict(content_stream.spec_bytes()));
    b
}

/// Appends object `k + 1` to a file that holds the header and the first `k`
/// objects, recording its position.
fn push_next_object(out: &mut Vec<u8>, offsets: &mut Vec<usize>, bodies: Ghost<Seq<Seq<u8>>>, k: usize, body: &Vec<u8>)
    requires
        k < 5,
        body@ == bodies@[k as int],
        old(out)@ == pdf_header() + objects_upto(bodies@, k as int),
        old(offsets)@.len() == k,
    ensures
        final(out)@ == pdf_header() + objects_upto(bodies@, k + 1),
        final(offsets)@.len() == k + 1,
        forall|i: int| 0 <= i < k ==> #[trigger] final(offsets)@[i] == old(offsets)@[i],
        final(offsets)@[k as int] == object_offset(bodies@, k as int),
{
    push_object(out, offsets, (k + 1) as u64, body);
    assert(final(out)@ =~= pdf_header() + objects_upto(bodies@, k + 1));
}

fn write_objects(out: &mut Vec<u8>, page_width: &str, page_height: &str, content_stream: &str) -> (offsets: Vec<usize>)
    requires
        old(out)@ == pdf_header(),
    ensures
        ({
            let bodies = object_bodies(
                page_width.spec_bytes(),
                page_height.spec_bytes(),
                content_stream.spec_bytes(),
            );
            &&& final(out)@ == pdf_header() + objects_upto(bodies, 5)
            &&& offsets@.len() == 5
            &&& forall|k: int| 0 <= k < 5 ==> #[trigger] offsets@[k] == object_offset(bodies, k)
        }),
{
    let ghost bodies = object_bodies(
        page_width.spec_bytes(),
        page_height.spec_bytes(),
        content_stream.spec_bytes(),
    );
    let mut offsets: Vec<usize> = Vec::new();
    assert(objects_upto(bodies, 0) =~= seq![]);
    assert(out@ =~= pdf_header() + objects_upto(bodies, 0));
    let b1 = lit_vec("<< /Type /Catalog /Pages 2 0 R >>");
    push_next_object(out, &mut offsets, Ghost(bodies), 0, &b1);
    let b2 = lit_vec("<< /Type /Pages /Kids [3 0 R] /Count 1 >>");
    push_next_object(out, &mut offsets, Ghost(bodies), 1, &b2);
    let b3 = page_dict_bytes(page_width, page_height);
    push_next_object(out, &mut offsets, Ghost(bodies), 2, &b3);
    let b4 = stream_dict_bytes(content_stream);
    push_next_object(out, &mut offsets, Ghost(bodies), 3, &b4);
    let b5 = lit_vec("<< /Type /Font /Subtype /Type1 /BaseFont /Helvetica >>");
    push_next_object(out, &mut offsets, Ghost(bodies), 4, &b5);
    assert forall|k: int| 0 <= k < 5 implies #[trigger] offsets@[k] == object_offset(bodies, k) by {}
    offsets
}

/// Writes a one-page PDF (objects: catalog, pages, page, content stream,
/// Helvetica font) with a correct cross-reference table. `page_width` and
/// `page_height` are the numbers written in the page's MediaBox.
pub fn build_pdf_single_page(page_width: &str, page_height: &str, content_stream: &str) -> (out: Vec<
    u8,
>)
    ensures
        out@ == single_page_pdf(
            page_width.spec_bytes(),
            page_height.spec_bytes(),
            content_stream.spec_bytes(),
        ),
{
    let ghost bodies = object_bodies(
        page_width.spec_bytes(),
        page_height.spec_bytes(),
        content_stream.spec_bytes(),
    );
    let mut out: Vec<u8> = Vec::new();
    push_lit(&mut out, "%PDF-1.4\n%");
    let marker: [u8; 4] = [0xE2, 0xE3, 0xCF, 0xD3];
    push_all(&mut out, &marker);
    push_lit(&mut out, "\n");
    assert(out@ =~= pdf_header());
    let offsets = write_objects(&mut out, page_width, page_height, content_stream);
    let ghost objects_end = out@;
    let xref_start = out.len();
    push_lit(&mut out, "xref\n0 ");
    push_number(&mut out, (offsets.len() + 1) as u64);
    push_lit(&mut out, "\n");
    push_lit(&mut out, "0000000000 65535 f \n");
    let ghost table_start = out@;
    let mut i: usize = 0;
    assert(xref_entries(bodies, 0) =~= seq![]);
    assert(out@ =~= table_start + xref_entries(bodies, 0));
    while i < offsets.len()
        invariant
            offsets@.len() == 5,
            i <= 5,
            forall|k: int| 0 <= k < 5 ==> #[trigger] offsets@[k] == object_offset(bodies, k),
            out@ == table_start + xref_entries(bodies, i as int),
        decreases 5 - i,
    {
        push_padded(&mut out, offsets[i] as u64, 10);
        push_lit(&mut out, " 00000 n \n");
        assert(out@ =~= table_start + xref_entries(bodies, i + 1));
        i += 1;
    }
    push_lit(&mut out, "trailer\n<< /Size ");
    push_number(&mut out, 6);
    push_lit(&mut out, " /Root 1 0 R >>\nstartxref\n");
    push_number(&mut out, xref_start as u64);
    push_lit(&mut out, "\n%%EOF\n");
    assert(out@ =~= objects_end + xref_section(bodies));
    out
}

/// Every entry of the cross-reference table points at its object: the
/// byte position written (zero-padded) in entry `k` of the table is where
/// `k+1 0 obj` starts, and `startxref` gives the position of `xref`.
pub proof fn lemma_pdf_xref(width: Seq<u8>, height: Seq<u8>, content: Seq<u8>, k: int)
    requires
        0 <= k < 5,
    ensures
        ({
            let bodies = object_bodies(width, height, content);
            let file = single_page_pdf(width, height, content);
            let at = object_offset(bodies, k);
            let obj = pdf_object((k + 1) as nat, bodies[k]);
            &&& at + obj.len() <= file.len()
            &&& file.subrange(at as int, (at + obj.len()) as int) == obj
            &&& file.subrange(
                object_offset(bodies, 5) as int,
                (object_offset(bodies, 5) + lit("xref\n0 ").len()) as int,
            ) == lit("xref\n0 ")
        }),
{
    let bodies = object_bodies(width, height, content);
    let file = single_page_pdf(width, height, content);
    lemma_objects_prefix(bodies, k + 1, 5);
    let pre = pdf_header() + objects_upto(bodies, 5);
    assert(file == pre + xref_section(bodies));
    assert(file.subrange(0, pre.len() as int) =~= pre);
    let upto = objects_upto(bodies, k + 1);
    assert(objects_upto(bodies, k + 1) == objects_upto(bodies, k) + pdf_object(
        (k + 1) as nat,
        bodies[k],
    ));
    let at = object_offset(bodies, k);
    let obj = pdf_object((k + 1) as nat, bodies[k]);
    let hl = pdf_header().len() as int;
    let p5 = objects_upto(bodies, 5);
    let pk = objects_upto(bodies, k);
    assert(p5.subrange(0, upto.len() as int) == upto);
    assert(upto.subrange(pk.len() as int, upto.len() as int) =~= obj);
    assert(pre.subrange(at as int, (at + obj.len()) as int) =~= p5.subrange(
        pk.len() as int,
        upto.len() as int,
    ));
    assert(p5.subrange(pk.len() as int, upto.len() as int) =~= upto.subrange(
        pk.len() as int,
        upto.len() as int,
    ));
    assert(pre.subrange(at as int, (at + obj.len()) as int) =~= obj);
    assert(file.subrange(at as int, (at + obj.len()) as int) =~= pre.subrange(at as int, (at + obj.len()) as int));
    let x = lit("xref\n0 ");
    assert(file.subrange(pre.len() as int, (pre.len() + x.len()) as int) =~= x);
}

proof fn lemma_objects_prefix(bodies: Seq<Seq<u8>>, j: int, k: int)
    requires
        0 <= j <= k,
    ensures
        objects_upto(bodies, k).subrange(0, objects_upto(bodies, j).len() as int) == objects_upto(
            bodies,
            j,
        ),
        objects_upto(bodies, j).len() <= objects_upto(bodies, k).len(),
    decreases k - j,
{
    if j < k {
        lemma_objects_prefix(bodies, j, k - 1);
        let a = objects_upto(bodies, k - 1);
        assert(objects_upto(bodies, k) == a + pdf_object(k as nat, bodies[k - 1]));
        assert((a + pdf_object(k as nat, bodies[k - 1])).subrange(
            0,
            objects_upto(bodies, j).len() as int,
        ) =~= a.subrange(0, objects_upto(bodies, j).len() as int));
    } else {
        assert(objects_upto(bodies, k).subrange(0, objects_upto(bodies, k).len() as int)
            =~= objects_upto(bodies, k));
    }
}

// ───────────────────────── API token ─────────────────────────

/// The token of the print API: the nanosecond clock reading at start-up,
/// xor-ed with a fixed mask, in lower-case hexadecimal.
pub fn api_token_from_nanos(nanos: u128) -> (token: String)
    ensures
        token@ == crate::text::hex((nanos ^ 0xDEAD_CAFE_1337u128) as nat),
{
    let v = nanos ^ 0xDEAD_CAFE_1337u128;
    let mut out: Vec<char> = Vec::new();
    crate::text::push_hex(&mut out, v);
    assert(out@ =~= crate::text::hex(v as nat));
    string_of(&out)
}

} // verus!
