use katsvg_engine::pdf_font::{thai_font, ThaiFace};
use katsvg_engine::pdf_page::{PdfCardPlace, PdfPlacement, PdfSectionPlace};
use katsvg_engine::png::RasterOp;
use katsvg_engine::raster::fill_rect;
use katsvg_engine::{InfographicIntentRouter, PDFVectorExporter, PNGRasterExporter, PPTXPresentationExporter, SVGVectorRenderer};

const INTER_B64: &str = "d09GMgABAAAAAA";
const THAI_B64: &str = "AAEAAAASAQAABAAg";

/// A minimal TrueType file: the `head`, `hhea` and `maxp` tables that a
/// face needs, one glyph, no character map.
fn tiny_font() -> Vec<u8> {
    let mut f: Vec<u8> = vec![0, 1, 0, 0, 0, 3, 0, 32, 0, 1, 0, 16];
    for (tag, off, len) in [(b"head", 60u32, 54u32), (b"hhea", 114, 36), (b"maxp", 150, 6)] {
        f.extend_from_slice(tag);
        f.extend_from_slice(&[0, 0, 0, 0]);
        f.extend_from_slice(&off.to_be_bytes());
        f.extend_from_slice(&len.to_be_bytes());
    }
    let mut head = vec![0u8; 54];
    head[1] = 1;
    head[12..16].copy_from_slice(&[0x5F, 0x0F, 0x3C, 0xF5]);
    head[18..20].copy_from_slice(&1000u16.to_be_bytes());
    f.extend_from_slice(&head);
    let mut hhea = vec![0u8; 36];
    hhea[1] = 1;
    f.extend_from_slice(&hhea);
    f.extend_from_slice(&[0, 0, 0x50, 0, 0, 1]);
    f
}

fn face() -> ThaiFace {
    thai_font(tiny_font()).expect("the minimal font parses")
}

/// A placement with marker texts in place of the formatted geometry.
fn placement(spec: &katsvg_engine::InfographicLayoutSpec) -> PdfPlacement {
    PdfPlacement {
        background: "BG\n".to_string(),
        title: "TITLE\n".to_string(),
        subtitle: "SUB\n".to_string(),
        cards: spec
            .metrics
            .iter()
            .map(|_| {
                Some(PdfCardPlace {
                    card: "CARD\n".to_string(),
                    value: "VAL\n".to_string(),
                    label: "LBL\n".to_string(),
                    icon_color: "0.1 0.2 0.3".to_string(),
                    icon_path: "1.0 2.0 m\nS\n".to_string(),
                })
            })
            .collect(),
        chart: String::new(),
        sections: spec
            .sections
            .iter()
            .map(|_| PdfSectionPlace { graphics: "SEC\n".to_string(), title: "HEAD\n".to_string(), description: "DESC\n".to_string() })
            .collect(),
    }
}

fn spec() -> katsvg_engine::InfographicLayoutSpec {
    InfographicIntentRouter::new().parse_and_route("Build a 4-step AI Agent Deployment Timeline in dark mode")
}

/// The raster with its rectangles painted (text, icons and charts are
/// painted by the application with font and path geometry), encoded.
fn png_bytes(spec: &katsvg_engine::InfographicLayoutSpec) -> Vec<u8> {
    let (w, h) = spec.aspect_ratio.dimensions();
    let mut px = PNGRasterExporter::blank_canvas(spec);
    for op in PNGRasterExporter::raster_ops(spec, false) {
        if let RasterOp::Fill { x0, y0, x1, y1, color } = op {
            fill_rect(&mut px, w as usize, x0, y0, x1, y1, color);
        }
    }
    PNGRasterExporter::encode_png(&px, w, h)
}

#[test]
fn png_has_valid_signature_and_chunks() {
    let png = png_bytes(&spec());
    assert_eq!(&png[..8], b"\x89PNG\r\n\x1a\n", "PNG signature missing");
    assert_eq!(&png[8..16], b"\x00\x00\x00\x0dIHDR", "IHDR chunk missing");
    let w = u32::from_be_bytes([png[16], png[17], png[18], png[19]]);
    let h = u32::from_be_bytes([png[20], png[21], png[22], png[23]]);
    assert_eq!((w, h), (800, 1131));
    assert!(png.ends_with(b"IEND\xaeB`\x82"), "IEND trailer missing");
}

#[test]
fn png_is_deterministic() {
    let a = png_bytes(&spec());
    let b = png_bytes(&spec());
    assert_eq!(a, b, "PNG output must be byte-identical across runs");
}

#[test]
fn pptx_is_valid_ooxml_zip() {
    let pptx = PPTXPresentationExporter::generate_pptx_bytes(&spec(), "");
    assert_eq!(&pptx[..4], b"PK\x03\x04", "ZIP local header missing");
    assert!(pptx.windows(b"[Content_Types].xml".len()).any(|w| w == b"[Content_Types].xml"));
    assert!(pptx.windows(4).any(|w| w == b"PK\x05\x06"), "ZIP EOCD missing");
}

#[test]
fn pptx_is_deterministic() {
    let a = PPTXPresentationExporter::generate_pptx_bytes(&spec(), "");
    let b = PPTXPresentationExporter::generate_pptx_bytes(&spec(), "");
    assert_eq!(a, b, "PPTX output must be byte-identical across runs");
}

#[test]
fn pdf_is_valid_pdf17() {
    let f = face();
    let pdf = PDFVectorExporter::generate_pdf_bytes(&spec(), &placement(&spec()), &f);
    assert_eq!(&pdf[..8], b"%PDF-1.7", "PDF 1.7 header missing");
    assert!(pdf.windows(b"%%EOF".len()).any(|w| w == b"%%EOF"), "%%EOF trailer missing");
}

#[test]
fn svg_has_no_network_dependency() {
    let svg = SVGVectorRenderer::render(&spec(), INTER_B64, THAI_B64);
    assert!(!svg.contains("@import"), "SVG must not load external fonts");
    assert!(!svg.contains("fonts.googleapis.com"), "SVG must not reference Google Fonts");
    assert!(svg.contains("<svg"), "SVG root missing");
}

#[test]
fn svg_is_deterministic() {
    let a = SVGVectorRenderer::render(&spec(), INTER_B64, THAI_B64);
    let b = SVGVectorRenderer::render(&spec(), INTER_B64, THAI_B64);
    assert_eq!(a, b, "SVG output must be byte-identical across runs");
}

#[test]
fn pdf_objects_stand_at_their_xref_offsets() {
    let f = face();
    let pdf = PDFVectorExporter::generate_pdf_bytes(&spec(), &placement(&spec()), &f);
    let text = String::from_utf8_lossy(&pdf).into_owned();
    let xref = text.find("xref\n0 6\n").expect("xref table");
    let entries = &text[xref + "xref\n0 6\n".len()..];
    let lines: Vec<&str> = entries.lines().skip(1).take(5).collect();
    for (k, line) in lines.iter().enumerate() {
        let off: usize = line[..10].parse().unwrap();
        let head = format!("{} 0 obj", k + 1);
        assert_eq!(&pdf[off..off + head.len()], head.as_bytes(), "object {} not at its offset", k + 1);
    }
    let startxref = text.rfind("startxref\n").unwrap();
    let n: usize = text[startxref + 10..].lines().next().unwrap().parse().unwrap();
    assert_eq!(&pdf[n..n + 4], b"xref");
}

#[test]
fn pdf_with_thai_text_embeds_the_face() {
    let r = InfographicIntentRouter::new();
    let spec = r.parse_and_route("สร้างไทม์ไลน์การพัฒนาระบบ");
    let f = face();
    let pdf = PDFVectorExporter::generate_pdf_bytes(&spec, &placement(&spec), &f);
    let text = String::from_utf8_lossy(&pdf).into_owned();
    assert!(text.contains("/F2 6 0 R"));
    assert!(text.contains("/Subtype /Type0"));
    assert!(text.contains("9 0 obj\n<< /Length 156 >>\nstream\n"));
    // the Thai title is shown with the embedded face as glyph ids (this face
    // maps no character, so every id is 0)
    assert!(text.contains("BT\n/F2 22 Tf\nTITLE\n<0000"));
    assert!(text.contains("0000> Tj\nET\n"));
}

#[test]
fn pptx_members_are_at_their_central_offsets() {
    let pptx = PPTXPresentationExporter::generate_pptx_bytes(&spec(), "");
    let eocd = pptx.windows(4).rposition(|w| w == b"PK\x05\x06").unwrap();
    let count = u16::from_le_bytes([pptx[eocd + 10], pptx[eocd + 11]]) as usize;
    let cd_off = u32::from_le_bytes([pptx[eocd + 16], pptx[eocd + 17], pptx[eocd + 18], pptx[eocd + 19]]) as usize;
    let mut p = cd_off;
    for _ in 0..count {
        assert_eq!(&pptx[p..p + 4], b"PK\x01\x02");
        let name_len = u16::from_le_bytes([pptx[p + 28], pptx[p + 29]]) as usize;
        let local = u32::from_le_bytes([pptx[p + 42], pptx[p + 43], pptx[p + 44], pptx[p + 45]]) as usize;
        assert_eq!(&pptx[local..local + 4], b"PK\x03\x04");
        assert_eq!(&pptx[local + 30..local + 30 + name_len], &pptx[p + 46..p + 46 + name_len]);
        p += 46 + name_len;
    }
}

#[test]
fn pptx_metric_cards_have_icons() {
    let r = InfographicIntentRouter::new();
    let spec = r.parse_and_route("Q3 KPI dashboard: revenue: 124M, users: 12M in navy");
    let pptx = PPTXPresentationExporter::generate_pptx_bytes(&spec, "");
    let txt = String::from_utf8_lossy(&pptx);
    assert!(txt.contains("name=\"Metric 1\""), "PPTX metric card 1 present");
    assert!(txt.contains("name=\"Icon 1\""), "PPTX icon mark 1 present");
}

#[test]
fn png_has_closing_iend() {
    let spec = spec();
    let px = PNGRasterExporter::blank_canvas(&spec);
    let png = PNGRasterExporter::encode_png(&px, 800, 1131);
    assert!(png.ends_with(b"\x00\x00\x00\x00IEND\xaeB`\x82"));
}

#[test]
fn fixed_layout_svg_escapes_text() {
    let r = InfographicIntentRouter::new();
    let spec = r.parse_and_route("Special characters: <script>alert(1)</script> & \"quotes\" 'single'");
    let svg = SVGVectorRenderer::render(&spec, INTER_B64, THAI_B64);
    assert!(!svg.contains("<script>") && !svg.contains("<SCRIPT>"));
    assert!(svg.contains("&lt;SCRIPT&gt;"));
    let no_cards = r.parse_and_route("plain words");
    assert!(no_cards.metrics.is_empty());
    let svg = SVGVectorRenderer::render(&no_cards, INTER_B64, THAI_B64);
    assert!(!svg.contains("class=\"metric-val\""));
    assert!(svg.ends_with("</svg>"));
}

#[test]
fn pdf_title_show_op_is_escaped() {
    let mut spec = spec();
    spec.title = "Q(1)".to_string();
    spec.subtitle = None;
    spec.metrics.clear();
    spec.sections.clear();
    spec.footer_note = None;
    let f = face();
    let pdf = PDFVectorExporter::generate_pdf_bytes(&spec, &placement(&spec), &f);
    let text = String::from_utf8_lossy(&pdf).into_owned();
    assert!(text.starts_with("%PDF-1.7\n"));
    assert!(text.ends_with("%%EOF\n"));
    assert!(text.contains("/MediaBox [0 0 800 1131]"));
    assert!(text.contains("/Size 6"));
    assert!(text.contains("BT\n/F1 22 Tf\nTITLE\n(Q\\(1\\)) Tj\nET\n"));
    assert!(!text.contains("(Q(1)) Tj"));
    assert!(!text.contains("/Type0"));
}

#[test]
fn pdf_metric_cards_carry_icon_strokes() {
    let r = InfographicIntentRouter::new();
    let spec = r.parse_and_route("Q3 KPI dashboard: revenue: 124M, users: 12M in navy");
    assert_eq!(spec.metrics.len(), 2, "both metric pairs bind");
    let f = face();
    let pdf = PDFVectorExporter::generate_pdf_bytes(&spec, &placement(&spec), &f);
    assert!(pdf.windows(b" RG 1.5 w".len()).any(|w| w == b" RG 1.5 w"), "PDF icon stroke op present");
    let text = String::from_utf8_lossy(&pdf).into_owned();
    assert!(text.contains("CARD\nBT\n/F1 18 Tf\nVAL\n(124M) Tj\nET\nBT\n/F1 9 Tf\nLBL\n(REVENUE) Tj\nET\n0.1 0.2 0.3 RG 1.5 w\n"));
    assert!(text.contains("SEC\nBT\n/F1 13 Tf\nHEAD\n(1. Step 1) Tj\nET\n"));
}

#[test]
fn unknown_layout_id_falls_back_to_legacy() {
    let mut spec = spec();
    spec.layout_id = "no_such_layout".to_string();
    let svg = SVGVectorRenderer::render(&spec, INTER_B64, THAI_B64);
    assert!(svg.contains("<svg"), "fallback must still emit valid SVG");
}

#[test]
fn pdf_embeds_type0_font_for_thai_text() {
    let r = InfographicIntentRouter::new();
    let spec = r.parse_and_route("สร้างไทม์ไลน์การพัฒนาระบบ");
    let f = face();
    let pdf = PDFVectorExporter::generate_pdf_bytes(&spec, &placement(&spec), &f);
    assert!(pdf.windows(b"/Subtype /Type0".len()).any(|w| w == b"/Subtype /Type0"), "Type0 font present");
    assert!(pdf.windows(b"/FontFile2".len()).any(|w| w == b"/FontFile2"), "FontFile2 stream present");
    assert!(pdf.windows(b"> Tj".len()).any(|w| w == b"> Tj"), "Thai text emitted as CID hex");
}

#[test]
fn pdf_latin_text_stays_literal() {
    let r = InfographicIntentRouter::new();
    let spec = r.parse_and_route("Quarterly revenue dashboard in navy");
    let f = face();
    let pdf = PDFVectorExporter::generate_pdf_bytes(&spec, &placement(&spec), &f);
    assert!(!pdf.windows(b"/Subtype /Type0".len()).any(|w| w == b"/Subtype /Type0"), "ascii-only PDF has no Type0 font");
    assert!(pdf.windows(b") Tj".len()).any(|w| w == b") Tj"), "latin text stays literal string");
}
