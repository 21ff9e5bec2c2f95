//! PDF 1.7 file structure: the object list (catalog, page tree, page,
//! content stream, Helvetica font and, for Thai text, an embedded Type0 CID
//! font), the cross-reference table and the trailer.

use crate::bytes::push_bytes;
use crate::font::{needs_thai, text_needs_thai};
use crate::pdf_font::ThaiFace;
use crate::pdf_page::{page_content, page_content_of, PdfPlacement};
use crate::router::{dims, InfographicLayoutSpec, LayoutSpecView, MetricView};
use crate::strutil::{dec, push_dec};
use vstd::prelude::*;
use vstd::string::*;
use vstd::utf8::encode_utf8;

verus! {

/// UTF-8 bytes of a character sequence.
pub open spec fn utf8(s: Seq<char>) -> Seq<u8> {
    encode_utf8(s)
}

/// The file header: version line and a binary-marker comment.
pub open spec fn pdf_header() -> Seq<u8> {
    seq![0x25u8, 0x50u8, 0x44u8, 0x46u8, 0x2du8, 0x31u8, 0x2eu8, 0x37u8, 0x0au8, 0x25u8, 0xf6u8, 0xe4u8, 0xfcu8, 0xd7u8, 0x0au8]
}

/// The document catalog (object 1).
pub const OBJ_CATALOG: &'static str = "1 0 obj\n<< /Type /Catalog /Pages 2 0 R >>\nendobj\n";

/// The page tree (object 2).
pub const OBJ_PAGES: &'static str = "2 0 obj\n<< /Type /Pages /Kinds [/PDF] /Count 1 /Kids [3 0 R] >>\nendobj\n";

/// The Helvetica font (object 5).
pub const OBJ_HELVETICA: &'static str = "5 0 obj\n<< /Type /Font /Subtype /Type1 /BaseFont /Helvetica >>\nendobj\n";

/// The Type0 font over the embedded Thai face (object 6).
pub const OBJ_TYPE0: &'static str = "6 0 obj\n<< /Type /Font /Subtype /Type0 /BaseFont /NotoSansThai /Encoding /Identity-H /DescendantFonts [7 0 R] >>\nendobj\n";

/// The CID font of the embedded Thai face (object 7).
pub const OBJ_CIDFONT: &'static str = "7 0 obj\n<< /Type /Font /Subtype /CIDFontType2 /BaseFont /NotoSansThai /CIDSystemInfo << /Registry (Adobe) /Ordering (Identity) /Supplement 0 >> /FontDescriptor 8 0 R /CIDToGIDMap /Identity /DW 1000 >>\nendobj\n";

/// The font descriptor of the embedded Thai face (object 8), with the face's
/// bounding box, ascent, descent and cap height.
pub const OBJ_DESCRIPTOR: &'static str = "8 0 obj\n<< /Type /FontDescriptor /FontName /NotoSansThai /Flags 4 /FontBBox [-662 -293 1336 1069] /ItalicAngle 0 /Ascent 1069 /Descent -293 /CapHeight 700 /StemV 80 /FontFile2 9 0 R >>\nendobj\n";

/// The page (object 3) with its media box and font resources.
pub open spec fn obj_page(w: nat, h: nat, thai: bool) -> Seq<u8> {
    utf8("3 0 obj\n<< /Type /Page /Parent 2 0 R /MediaBox [0 0 "@) + utf8(dec(w)) + utf8(" "@) + utf8(dec(h))
        + utf8("] /Contents 4 0 R /Resources << /Font << /F1 5 0 R"@)
        + (if thai { utf8(" /F2 6 0 R"@) } else { seq![] }) + utf8(" >> >> >>\nendobj\n"@)
}

/// A stream object numbered `num` holding `data`.
pub open spec fn obj_stream(num: Seq<char>, data: Seq<u8>) -> Seq<u8> {
    utf8(num) + utf8(" 0 obj\n<< /Length "@) + utf8(dec(data.len())) + utf8(" >>\nstream\n"@) + data
        + utf8("\nendstream\nendobj\n"@)
}

/// The objects of the file, numbered from 1, in file order.
pub open spec fn pdf_objects(w: nat, h: nat, content: Seq<u8>, thai: bool, font: Seq<u8>) -> Seq<Seq<u8>> {
    let base = seq![
        OBJ_CATALOG.spec_bytes(),
        OBJ_PAGES.spec_bytes(),
        obj_page(w, h, thai),
        obj_stream("4"@, content),
        OBJ_HELVETICA.spec_bytes(),
    ];
    if thai {
        base + seq![OBJ_TYPE0.spec_bytes(), OBJ_CIDFONT.spec_bytes(), OBJ_DESCRIPTOR.spec_bytes(), obj_stream("9"@, font)]
    } else {
        base
    }
}

/// Byte offset of object `k` (0-based) in the file.
pub open spec fn obj_offset(objs: Seq<Seq<u8>>, k: int) -> nat {
    pdf_header().len() + objs.take(k).flatten_alt().len()
}

/// `d` left-padded with zeros to at least `width` characters.
pub open spec fn zero_pad(d: Seq<char>, width: nat) -> Seq<char> {
    if d.len() >= width { d } else { Seq::new((width - d.len()) as nat, |i: int| '0') + d }
}

/// The cross-reference entries of the first `k` objects.
pub open spec fn xref_entries(objs: Seq<Seq<u8>>, k: nat) -> Seq<u8>
    decreases k,
{
    if k == 0 {
        seq![]
    } else {
        xref_entries(objs, (k - 1) as nat) + utf8(zero_pad(dec(obj_offset(objs, k - 1)), 10))
            + utf8(" 00000 n \n"@)
    }
}

/// The whole file: header, objects, cross-reference table and trailer.
pub open spec fn pdf_file(w: nat, h: nat, content: Seq<u8>, thai: bool, font: Seq<u8>) -> Seq<u8> {
    let objs = pdf_objects(w, h, content, thai, font);
    let body = pdf_header() + objs.flatten_alt();
    let n = objs.len() + 1;
    body + utf8("xref\n0 "@) + utf8(dec(n)) + utf8("\n"@) + utf8("0000000000 65535 f \n"@)
        + xref_entries(objs, objs.len()) + utf8("trailer\n<< /Size "@) + utf8(dec(n))
        + utf8(" /Root 1 0 R >>\nstartxref\n"@) + utf8(dec(body.len())) + utf8("\n%%EOF\n"@)
}

fn push_ascii(out: &mut Vec<u8>, s: &str)
    ensures
        final(out)@ == old(out)@ + utf8(s@),
{
    push_bytes(out, s.as_bytes());
}

fn push_dec_bytes(out: &mut Vec<u8>, n: u64)
    ensures
        final(out)@ == old(out)@ + utf8(dec(n as nat)),
{
    let mut s = String::new();
    push_dec(&mut s, n);
    assert(s@ =~= dec(n as nat));
    push_bytes(out, s.as_str().as_bytes());
}

fn push_zero_pad10(out: &mut Vec<u8>, n: u64)
    ensures
        final(out)@ == old(out)@ + utf8(zero_pad(dec(n as nat), 10)),
{
    let mut d = String::new();
    push_dec(&mut d, n);
    let dv = crate::strutil::str_chars(d.as_str());
    let mut s = String::new();
    let mut k: usize = dv.len();
    while k < 10
        invariant
            dv.len() <= k <= 10 || (k == dv.len() && dv.len() > 10),
            s@ == Seq::new((k - dv.len()) as nat, |i: int| '0'),
        decreases 10 - k,
    {
        crate::strutil::push_char(&mut s, '0');
        k = k + 1;
        assert(s@ =~= Seq::new((k - dv.len()) as nat, |i: int| '0'));
    }
    crate::strutil::push_str(&mut s, d.as_str());
    assert(s@ =~= zero_pad(dec(n as nat), 10));
    push_bytes(out, s.as_str().as_bytes());
}


fn push_header(out: &mut Vec<u8>)
    ensures
        final(out)@ == old(out)@ + pdf_header(),
{
    out.push(0x25);
    out.push(0x50);
    out.push(0x44);
    out.push(0x46);
    out.push(0x2d);
    out.push(0x31);
    out.push(0x2e);
    out.push(0x37);
    out.push(0x0a);
    out.push(0x25);
    out.push(0xf6);
    out.push(0xe4);
    out.push(0xfc);
    out.push(0xd7);
    out.push(0x0a);
    assert(out@ =~= old(out)@ + pdf_header());
}

fn push_obj_page(out: &mut Vec<u8>, w: u32, h: u32, thai: bool)
    ensures
        final(out)@ == old(out)@ + obj_page(w as nat, h as nat, thai),
{
    let ghost start = out@;
    push_ascii(out, "3 0 obj\n<< /Type /Page /Parent 2 0 R /MediaBox [0 0 ");
    push_dec_bytes(out, w as u64);
    push_ascii(out, " ");
    push_dec_bytes(out, h as u64);
    push_ascii(out, "] /Contents 4 0 R /Resources << /Font << /F1 5 0 R");
    if thai {
        push_ascii(out, " /F2 6 0 R");
    }
    push_ascii(out, " >> >> >>\nendobj\n");
    assert(out@ =~= start + obj_page(w as nat, h as nat, thai));
}

fn push_obj_stream(out: &mut Vec<u8>, num: &str, data: &[u8])
    ensures
        final(out)@ == old(out)@ + obj_stream(num@, data@),
{
    let ghost start = out@;
    push_ascii(out, num);
    push_ascii(out, " 0 obj\n<< /Length ");
    push_dec_bytes(out, data.len() as u64);
    push_ascii(out, " >>\nstream\n");
    push_bytes(out, data);
    push_ascii(out, "\nendstream\nendobj\n");
    assert(out@ =~= start + obj_stream(num@, data@));
}

proof fn lemma_take_flatten(objs: Seq<Seq<u8>>, k: int)
    requires
        0 <= k < objs.len(),
    ensures
        objs.take(k + 1).flatten_alt() == objs.take(k).flatten_alt() + objs[k],
{
    assert(objs.take(k + 1).drop_last() == objs.take(k));
}

/// Appends object `k` and records its offset.
fn push_object(out: &mut Vec<u8>, offsets: &mut Vec<usize>, obj: &[u8], Ghost(objs): Ghost<Seq<Seq<u8>>>)
    requires
        old(offsets).len() < objs.len(),
        objs[old(offsets).len() as int] == obj@,
        old(out)@ == pdf_header() + objs.take(old(offsets).len() as int).flatten_alt(),
        forall|j: int| 0 <= j < old(offsets).len() ==> old(offsets)@[j] == obj_offset(objs, j),
    ensures
        final(offsets).len() == old(offsets).len() + 1,
        final(out)@ == pdf_header() + objs.take(final(offsets).len() as int).flatten_alt(),
        forall|j: int| 0 <= j < final(offsets).len() ==> final(offsets)@[j] == obj_offset(objs, j),
{
    let k = offsets.len();
    offsets.push(out.len());
    push_bytes(out, obj);
    proof {
        lemma_take_flatten(objs, k as int);
    }
}

/// Assembles the PDF file for a page of `w` by `h` points with the given
/// content stream; with `thai`, the embedded font `font` is added as a
/// Type0 CID font.
pub fn pdf_document(w: u32, h: u32, content: &[u8], thai: bool, font: &[u8]) -> (r: Vec<u8>)
    ensures
        r@ == pdf_file(w as nat, h as nat, content@, thai, font@),
{
    let ghost objs = pdf_objects(w as nat, h as nat, content@, thai, font@);
    let mut out: Vec<u8> = Vec::new();
    let mut offsets: Vec<usize> = Vec::new();
    push_header(&mut out);
    assert(objs.take(0).flatten_alt() =~= Seq::<u8>::empty());

    push_object(&mut out, &mut offsets, OBJ_CATALOG.as_bytes(), Ghost(objs));
    push_object(&mut out, &mut offsets, OBJ_PAGES.as_bytes(), Ghost(objs));
    let mut page: Vec<u8> = Vec::new();
    push_obj_page(&mut page, w, h, thai);
    push_object(&mut out, &mut offsets, page.as_slice(), Ghost(objs));
    let mut stream: Vec<u8> = Vec::new();
    push_obj_stream(&mut stream, "4", content);
    push_object(&mut out, &mut offsets, stream.as_slice(), Ghost(objs));
    push_object(&mut out, &mut offsets, OBJ_HELVETICA.as_bytes(), Ghost(objs));
    if thai {
        push_object(&mut out, &mut offsets, OBJ_TYPE0.as_bytes(), Ghost(objs));
        push_object(&mut out, &mut offsets, OBJ_CIDFONT.as_bytes(), Ghost(objs));
        push_object(&mut out, &mut offsets, OBJ_DESCRIPTOR.as_bytes(), Ghost(objs));
        let mut font_obj: Vec<u8> = Vec::new();
        push_obj_stream(&mut font_obj, "9", font);
        push_object(&mut out, &mut offsets, font_obj.as_slice(), Ghost(objs));
    }
    assert(offsets.len() == objs.len());
    assert(objs.take(objs.len() as int) == objs);

    let xref_start = out.len();
    let ghost body = out@;
    push_ascii(&mut out, "xref\n0 ");
    push_dec_bytes(&mut out, offsets.len() as u64 + 1);
    push_ascii(&mut out, "\n");
    push_ascii(&mut out, "0000000000 65535 f \n");
    let ghost table_start = out@;
    let mut i: usize = 0;
    while i < offsets.len()
        invariant
            i <= offsets.len(),
            offsets.len() == objs.len(),
            forall|j: int| 0 <= j < offsets.len() ==> offsets@[j] == obj_offset(objs, j),
            out@ == table_start + xref_entries(objs, i as nat),
        decreases offsets.len() - i,
    {
        push_zero_pad10(&mut out, offsets[i] as u64);
        push_ascii(&mut out, " 00000 n \n");
        i = i + 1;
    }
    push_ascii(&mut out, "trailer\n<< /Size ");
    push_dec_bytes(&mut out, offsets.len() as u64 + 1);
    push_ascii(&mut out, " /Root 1 0 R >>\nstartxref\n");
    push_dec_bytes(&mut out, xref_start as u64);
    push_ascii(&mut out, "\n%%EOF\n");
    assert(out@ =~= pdf_file(w as nat, h as nat, content@, thai, font@));
    out
}


/// PDF 1.7 exporter.
pub struct PDFVectorExporter;

/// The Thai face's bytes when the page embeds it, else nothing.
pub open spec fn embedded(thai: bool, face: Seq<u8>) -> Seq<u8> {
    if thai { face } else { Seq::empty() }
}

impl PDFVectorExporter {
    /// The PDF file of `spec`: a single page of the canvas size whose content
    /// stream is `page_content` of the specification with the caller's
    /// formatted geometry `place`, with the Helvetica font and, when the
    /// specification's text is not all ASCII, the Thai face `thai_face`
    /// embedded as a Type0 CID font (`F2`) that shows its non-ASCII texts.
    pub fn generate_pdf_bytes(spec: &InfographicLayoutSpec, place: &PdfPlacement, thai_face: &ThaiFace) -> (r: Vec<u8>)
        requires
            place.cards@.len() == spec.metrics@.len(),
            place.sections@.len() == spec.sections@.len(),
        ensures
            r@ == pdf_file(
                dims(spec.aspect_ratio).0 as nat,
                dims(spec.aspect_ratio).1 as nat,
                utf8(page_content(spec@, *place, text_needs_thai(spec@), embedded(text_needs_thai(spec@), thai_face@))),
                text_needs_thai(spec@),
                embedded(text_needs_thai(spec@), thai_face@),
            ),
    {
        let (width_pt, height_pt) = spec.aspect_ratio.dimensions();
        let thai = needs_thai(spec);
        let content = if thai {
            page_content_of(spec, place, Some(thai_face))
        } else {
            page_content_of(spec, place, None)
        };
        let empty: Vec<u8> = Vec::new();
        let font: &[u8] = if thai { thai_face.bytes() } else { empty.as_slice() };
        assert(font@ == embedded(thai, thai_face@));
        pdf_document(width_pt, height_pt, content.as_str().as_bytes(), thai, font)
    }
}


proof fn lemma_flatten_prefix(objs: Seq<Seq<u8>>, k: int)
    requires
        0 <= k <= objs.len(),
    ensures
        objs.take(k).flatten_alt().len() <= objs.flatten_alt().len(),
        objs.flatten_alt().take(objs.take(k).flatten_alt().len() as int) == objs.take(k).flatten_alt(),
    decreases objs.len() - k,
{
    if k == objs.len() {
        assert(objs.take(k) == objs);
    } else {
        lemma_flatten_prefix(objs, k + 1);
        assert(objs.take(k + 1).drop_last() == objs.take(k));
        let a = objs.take(k).flatten_alt();
        let b = objs.take(k + 1).flatten_alt();
        assert(b == a + objs[k]);
        assert(objs.flatten_alt().take(a.len() as int) =~= b.take(a.len() as int));
        assert(b.take(a.len() as int) =~= a);
    }
}

proof fn lemma_object_in_prefix(objs: Seq<Seq<u8>>, f: Seq<u8>, k: int)
    requires
        0 <= k < objs.len(),
        f.len() >= (pdf_header() + objs.flatten_alt()).len(),
        forall|i: int| 0 <= i < (pdf_header() + objs.flatten_alt()).len() ==> f[i] == (pdf_header() + objs.flatten_alt())[i],
    ensures
        obj_offset(objs, k) + objs[k].len() <= f.len(),
        f.subrange(obj_offset(objs, k) as int, (obj_offset(objs, k) + objs[k].len()) as int) == objs[k],
{
    lemma_flatten_prefix(objs, k + 1);
    assert(objs.take(k + 1).drop_last() == objs.take(k));
    assert(objs.take(k + 1).last() == objs[k]);
    let a = objs.take(k).flatten_alt();
    let e = objs[k];
    let all = objs.flatten_alt();
    assert(objs.take(k + 1).flatten_alt() == a + e);
    assert(all.take((a + e).len() as int) == a + e);
    let body = pdf_header() + all;
    let lo = pdf_header().len() + a.len();
    assert forall|i: int| 0 <= i < e.len() implies f[lo + i] == e[i] by {
        assert(f[lo + i] == body[lo + i]);
        assert(body[lo + i] == all[a.len() + i]);
        assert(all[a.len() + i] == all.take((a + e).len() as int)[a.len() + i]);
    }
    assert(f.subrange(lo as int, (lo + e.len()) as int) =~= e);
}

/// Every object of the file stands at the byte offset that its
/// cross-reference entry records.
pub proof fn lemma_object_at_offset(w: nat, h: nat, content: Seq<u8>, thai: bool, font: Seq<u8>, k: int)
    requires
        0 <= k < pdf_objects(w, h, content, thai, font).len(),
    ensures
        ({
            let objs = pdf_objects(w, h, content, thai, font);
            let f = pdf_file(w, h, content, thai, font);
            &&& obj_offset(objs, k) + objs[k].len() <= f.len()
            &&& f.subrange(obj_offset(objs, k) as int, (obj_offset(objs, k) + objs[k].len()) as int) == objs[k]
        }),
{
    let objs = pdf_objects(w, h, content, thai, font);
    let f = pdf_file(w, h, content, thai, font);
    let body = pdf_header() + objs.flatten_alt();
    assert(f.take(body.len() as int) =~= body);
    assert forall|i: int| 0 <= i < body.len() implies f[i] == body[i] by {
        assert(f.take(body.len() as int)[i] == f[i]);
    }
    lemma_object_in_prefix(objs, f, k);
}

/// The file starts with the version line `%PDF-1.7`.
#[verifier::spinoff_prover]
#[verifier::rlimit(40)]
pub proof fn lemma_pdf_signature(w: nat, h: nat, content: Seq<u8>, thai: bool, font: Seq<u8>)
    ensures
        pdf_file(w, h, content, thai, font).take(8) == seq![0x25u8, 0x50u8, 0x44u8, 0x46u8, 0x2du8, 0x31u8, 0x2eu8, 0x37u8],
{
    let f = pdf_file(w, h, content, thai, font);
    let objs = pdf_objects(w, h, content, thai, font);
    let body = pdf_header() + objs.flatten_alt();
    assert forall|i: int| 0 <= i < 8 implies f[i] == pdf_header()[i] by {
        assert(f[i] == body[i]);
    }
    assert(f.take(8) =~= seq![0x25u8, 0x50u8, 0x44u8, 0x46u8, 0x2du8, 0x31u8, 0x2eu8, 0x37u8]);
}

} // verus!
