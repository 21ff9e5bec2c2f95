//! Document exporters: the PowerPoint package (OOXML in a ZIP container),
//! the PDF 1.7 file structure, and the PNG encoding of a raster.

use crate::router::{
    dims, theme_colors, InfographicLayoutSpec, LayoutSpecView, MetricCardSpec, MetricView, SectionSpec, SectionView,
};
use crate::strutil::{dec, push_char, push_dec, push_str};
use crate::pptx_parts::{
    APP_XML, CONTENT_TYPES, CORE_XML, PRESENTATION_HEAD, PRESENTATION_MID, PRESENTATION_RELS,
    PRESENTATION_TAIL, ROOT_RELS, SLIDE_LAYOUT_RELS, SLIDE_LAYOUT_XML, SLIDE_MASTER_RELS, SLIDE_MASTER_XML,
    SLIDE_RELS, THEME_RELS, THEME_XML,
};
use crate::zip::{member_bytes, zip_archive, zip_package};
use vstd::prelude::*;
use vstd::string::*;
use vstd::utf8::encode_utf8;

verus! {

/// XML escape of one character.
pub open spec fn xml_escape_char(c: char) -> Seq<char> {
    if c == '&' {
        "&amp;"@
    } else if c == '<' {
        "&lt;"@
    } else if c == '>' {
        "&gt;"@
    } else if c == '"' {
        "&quot;"@
    } else if c == '\'' {
        "&apos;"@
    } else {
        seq![c]
    }
}

/// XML escape of a text: `& < > " '` become entity references.
pub open spec fn xml_escape(s: Seq<char>) -> Seq<char>
    decreases s.len(),
{
    if s.len() == 0 {
        seq![]
    } else {
        xml_escape(s.drop_last()) + xml_escape_char(s.last())
    }
}

/// Appends the XML escape of `input` to `out`.
fn push_escaped_xml(out: &mut String, input: &str)
    ensures
        final(out)@ == old(out)@ + xml_escape(input@),
{
    let ghost start = out@;
    for c in it: input.chars()
        invariant
            it.seq() == input@,
            out@ == start + xml_escape(input@.take(it.index() as int)),
    {
        let ghost i = it.index() as int;
        assert(input@.take(i + 1).drop_last() == input@.take(i));
        if c == '&' {
            push_str(out, "&amp;");
        } else if c == '<' {
            push_str(out, "&lt;");
        } else if c == '>' {
            push_str(out, "&gt;");
        } else if c == '"' {
            push_str(out, "&quot;");
        } else if c == '\'' {
            push_str(out, "&apos;");
        } else {
            push_char(out, c);
        }
    }
    assert(input@.take(input@.len() as int) == input@);
}

/// Escapes `& < > " '` for XML text and attribute values.
pub fn escape_xml(input: &str) -> (r: String)
    ensures
        r@ == xml_escape(input@),
{
    let mut r = String::new();
    push_escaped_xml(&mut r, input);
    r
}

/// `s` without its leading `#` characters.
pub open spec fn strip_hashes(s: Seq<char>) -> Seq<char>
    decreases s.len(),
{
    if s.len() > 0 && s[0] == '#' { strip_hashes(s.drop_first()) } else { s }
}

/// Appends `s` without its leading `#` characters (`trim_start_matches('#')`).
pub(crate) fn push_hex(out: &mut String, s: &str)
    ensures
        final(out)@ == old(out)@ + strip_hashes(s@),
{
    let ghost start = out@;
    let mut skipping = true;
    for c in it: s.chars()
        invariant
            it.seq() == s@,
            skipping ==> out@ == start && (forall|k: int| 0 <= k < it.index() ==> s@[k] == '#'),
            !skipping ==> out@ + s@.skip(it.index() as int) == start + strip_hashes(s@),
    {
        let ghost i = it.index() as int;
        if skipping && c == '#' {
        } else {
            if skipping {
                proof {
                    lemma_strip_prefix(s@, i);
                }
            }
            skipping = false;
            push_char(out, c);
            assert(s@.skip(i) == seq![c] + s@.skip(i + 1));
        }
    }
    proof {
        if skipping {
            lemma_strip_prefix(s@, s@.len() as int);
        }
        assert(s@.skip(s@.len() as int) =~= Seq::<char>::empty());
    }
}

proof fn lemma_strip_prefix(s: Seq<char>, i: int)
    requires
        0 <= i <= s.len(),
        forall|k: int| 0 <= k < i ==> s[k] == '#',
        i == s.len() || s[i] != '#',
    ensures
        strip_hashes(s) == s.skip(i),
    decreases i,
{
    if i > 0 {
        lemma_strip_prefix(s.drop_first(), i - 1);
        assert(s.drop_first().skip(i - 1) =~= s.skip(i));
    } else {
        assert(s.skip(0) =~= s);
    }
}

/// The slide prologue: background, shape tree header and the title shape.
pub open spec fn slide_head(bg: Seq<char>, text: Seq<char>, title: Seq<char>) -> Seq<char> {
    "<?xml version=\"1.0\" encoding=\"UTF-8\" standalone=\"yes\"?>\n"@
        + "<p:sld xmlns:a=\"http://schemas.openxmlformats.org/drawingml/2006/main\" xmlns:r=\"http://schemas.openxmlformats.org/officeDocument/2006/relationships\" xmlns:p=\"http://schemas.openxmlformats.org/presentationml/2006/main\">\n"@
        + "  <p:cSld>\n    <p:bg>\n      <p:bgPr>\n"@
        + "        <a:solidFill><a:srgbClr val=\""@
        + strip_hashes(bg)
        + "\"/></a:solidFill>\n"@
        + "      </p:bgPr>\n    </p:bg>\n    <p:spTree>\n"@
        + "      <p:nvGrpSpPr><p:cNvPr id=\"1\" name=\"\"/><p:cNvGrpSpPr/><p:nvPr/></p:nvGrpSpPr><p:grpSpPr><a:xfrm><a:off x=\"0\" y=\"0\"/><a:ext cx=\"0\" cy=\"0\"/><a:chOff x=\"0\" y=\"0\"/><a:chExt cx=\"0\" cy=\"0\"/></a:xfrm></p:grpSpPr>\n"@
        + "      <p:sp>\n        <p:nvSpPr><p:cNvPr id=\"2\" name=\"Title 1\"/><p:cNvSpPr/><p:nvPr/></p:nvSpPr>\n"@
        + "        <p:spPr><a:xfrm><a:off x=\"457200\" y=\"457200\"/><a:ext cx=\"8229600\" cy=\"914400\"/></a:xfrm></p:spPr>\n"@
        + "        <p:txBody><a:bodyPr/><a:lstStyle/><a:p>\n"@
        + "          <a:r><a:rPr lang=\"en-US\" sz=\"2800\" b=\"1\"><a:solidFill><a:srgbClr val=\""@
        + strip_hashes(text)
        + "\"/></a:solidFill></a:rPr>"@
        + "<a:t>"@
        + xml_escape(title)
        + "</a:t></a:r>\n"@
        + "        </a:p></p:txBody>\n      </p:sp>\n"@
}

#[verifier::spinoff_prover]
#[verifier::rlimit(60)]
fn push_slide_head(out: &mut String, bg: &str, text: &str, title: &str)
    ensures
        final(out)@ == old(out)@ + slide_head(bg@, text@, title@),
{
    let ghost start = out@;
    push_str(out, "<?xml version=\"1.0\" encoding=\"UTF-8\" standalone=\"yes\"?>\n");
    push_str(out, "<p:sld xmlns:a=\"http://schemas.openxmlformats.org/drawingml/2006/main\" xmlns:r=\"http://schemas.openxmlformats.org/officeDocument/2006/relationships\" xmlns:p=\"http://schemas.openxmlformats.org/presentationml/2006/main\">\n");
    push_str(out, "  <p:cSld>\n    <p:bg>\n      <p:bgPr>\n");
    push_str(out, "        <a:solidFill><a:srgbClr val=\"");
    push_hex(out, bg);
    push_str(out, "\"/></a:solidFill>\n");
    push_str(out, "      </p:bgPr>\n    </p:bg>\n    <p:spTree>\n");
    push_str(out, "      <p:nvGrpSpPr><p:cNvPr id=\"1\" name=\"\"/><p:cNvGrpSpPr/><p:nvPr/></p:nvGrpSpPr><p:grpSpPr><a:xfrm><a:off x=\"0\" y=\"0\"/><a:ext cx=\"0\" cy=\"0\"/><a:chOff x=\"0\" y=\"0\"/><a:chExt cx=\"0\" cy=\"0\"/></a:xfrm></p:grpSpPr>\n");
    push_str(out, "      <p:sp>\n        <p:nvSpPr><p:cNvPr id=\"2\" name=\"Title 1\"/><p:cNvSpPr/><p:nvPr/></p:nvSpPr>\n");
    push_str(out, "        <p:spPr><a:xfrm><a:off x=\"457200\" y=\"457200\"/><a:ext cx=\"8229600\" cy=\"914400\"/></a:xfrm></p:spPr>\n");
    push_str(out, "        <p:txBody><a:bodyPr/><a:lstStyle/><a:p>\n");
    push_str(out, "          <a:r><a:rPr lang=\"en-US\" sz=\"2800\" b=\"1\"><a:solidFill><a:srgbClr val=\"");
    push_hex(out, text);
    push_str(out, "\"/></a:solidFill></a:rPr>");
    push_str(out, "<a:t>");
    push_escaped_xml(out, title);
    push_str(out, "</a:t></a:r>\n");
    push_str(out, "        </a:p></p:txBody>\n      </p:sp>\n");
    assert(out@ =~= start + slide_head(bg@, text@, title@));
}

/// The card shape of metric `i` at horizontal offset `x_off` (EMU).
pub open spec fn slide_metric_card(i: nat, x_off: nat, card: Seq<char>, accent1: Seq<char>, value: Seq<char>) -> Seq<char> {
    "      <p:sp>\n"@
        + "        <p:nvSpPr><p:cNvPr id=\""@
        + dec((30 + i) as nat)
        + "\" name=\"Metric "@
        + dec((i + 1) as nat)
        + "\"/><p:cNvSpPr/><p:nvPr/></p:nvSpPr>\n"@
        + "        <p:spPr><a:xfrm><a:off x=\""@
        + dec((x_off) as nat)
        + "\" y=\"1371600\"/><a:ext cx=\""@
        + "8229600"@
        + "\" cy=\"914400\"/></a:xfrm>\n"@
        + "          <a:prstGeom prst=\"roundRect\"><a:avLst/></a:prstGeom><a:solidFill><a:srgbClr val=\""@
        + strip_hashes(card)
        + "\"/></a:solidFill>\n"@
        + "        </p:spPr>\n"@
        + "        <p:txBody><a:bodyPr/><a:lstStyle/><a:p>\n"@
        + "          <a:r><a:rPr sz=\"2000\" b=\"1\"><a:solidFill><a:srgbClr val=\""@
        + strip_hashes(accent1)
        + "\"/></a:solidFill></a:rPr><a:t>"@
        + xml_escape(value)
        + "</a:t></a:r>\n"@
        + "        </a:p></p:txBody>\n      </p:sp>\n"@
}

#[verifier::spinoff_prover]
#[verifier::rlimit(60)]
fn push_slide_metric_card(out: &mut String, i: u64, x_off: u64, card: &str, accent1: &str, value: &str)
    requires
        i + 31 <= u64::MAX,
    ensures
        final(out)@ == old(out)@ + slide_metric_card(i as nat, x_off as nat, card@, accent1@, value@),
{
    let ghost start = out@;
    push_str(out, "      <p:sp>\n");
    push_str(out, "        <p:nvSpPr><p:cNvPr id=\"");
    push_dec(out, 30 + i);
    push_str(out, "\" name=\"Metric ");
    push_dec(out, i + 1);
    push_str(out, "\"/><p:cNvSpPr/><p:nvPr/></p:nvSpPr>\n");
    push_str(out, "        <p:spPr><a:xfrm><a:off x=\"");
    push_dec(out, x_off);
    push_str(out, "\" y=\"1371600\"/><a:ext cx=\"");
    push_str(out, "8229600");
    push_str(out, "\" cy=\"914400\"/></a:xfrm>\n");
    push_str(out, "          <a:prstGeom prst=\"roundRect\"><a:avLst/></a:prstGeom><a:solidFill><a:srgbClr val=\"");
    push_hex(out, card);
    push_str(out, "\"/></a:solidFill>\n");
    push_str(out, "        </p:spPr>\n");
    push_str(out, "        <p:txBody><a:bodyPr/><a:lstStyle/><a:p>\n");
    push_str(out, "          <a:r><a:rPr sz=\"2000\" b=\"1\"><a:solidFill><a:srgbClr val=\"");
    push_hex(out, accent1);
    push_str(out, "\"/></a:solidFill></a:rPr><a:t>");
    push_escaped_xml(out, value);
    push_str(out, "</a:t></a:r>\n");
    push_str(out, "        </a:p></p:txBody>\n      </p:sp>\n");
    assert(out@ =~= start + slide_metric_card(i as nat, x_off as nat, card@, accent1@, value@));
}

/// The icon mark of metric `i` on the card at horizontal offset `x_off` (EMU).
pub open spec fn slide_metric_icon(i: nat, x_off: nat, accent2: Seq<char>) -> Seq<char> {
    "      <p:sp>\n"@
        + "        <p:nvSpPr><p:cNvPr id=\""@
        + dec((30 + i + 100) as nat)
        + "\" name=\"Icon "@
        + dec((i + 1) as nat)
        + "\"/><p:cNvSpPr/><p:nvPr/></p:nvSpPr>\n"@
        + "        <p:spPr><a:xfrm><a:off x=\""@
        + dec((x_off + 8229600 - 400000) as nat)
        + "\" y=\"1676400\"/><a:ext cx=\"274320\" cy=\"274320\"/></a:xfrm>\n"@
        + "          <a:prstGeom prst=\"rect\"><a:avLst/></a:prstGeom><a:ln w=\"38100\"><a:solidFill><a:srgbClr val=\""@
        + strip_hashes(accent2)
        + "\"/></a:solidFill></a:ln><a:noFill/></p:spPr>\n        <p:txBody><a:bodyPr/><a:lstStyle/><a:p><a:endParaRPr lang=\"en-US\"/></a:p></p:txBody>\n      </p:sp>\n"@
}

#[verifier::spinoff_prover]
#[verifier::rlimit(60)]
fn push_slide_metric_icon(out: &mut String, i: u64, x_off: u64, accent2: &str)
    requires
        i + 131 <= u64::MAX,
        x_off + 8229600 <= u64::MAX,
    ensures
        final(out)@ == old(out)@ + slide_metric_icon(i as nat, x_off as nat, accent2@),
{
    let ghost start = out@;
    push_str(out, "      <p:sp>\n");
    push_str(out, "        <p:nvSpPr><p:cNvPr id=\"");
    push_dec(out, 30 + i + 100);
    push_str(out, "\" name=\"Icon ");
    push_dec(out, i + 1);
    push_str(out, "\"/><p:cNvSpPr/><p:nvPr/></p:nvSpPr>\n");
    push_str(out, "        <p:spPr><a:xfrm><a:off x=\"");
    push_dec(out, x_off + 8229600 - 400000);
    push_str(out, "\" y=\"1676400\"/><a:ext cx=\"274320\" cy=\"274320\"/></a:xfrm>\n");
    push_str(out, "          <a:prstGeom prst=\"rect\"><a:avLst/></a:prstGeom><a:ln w=\"38100\"><a:solidFill><a:srgbClr val=\"");
    push_hex(out, accent2);
    push_str(out, "\"/></a:solidFill></a:ln><a:noFill/></p:spPr>\n        <p:txBody><a:bodyPr/><a:lstStyle/><a:p><a:endParaRPr lang=\"en-US\"/></a:p></p:txBody>\n      </p:sp>\n");
    assert(out@ =~= start + slide_metric_icon(i as nat, x_off as nat, accent2@));
}

/// The card shape of section `i` at vertical offset `y_off` (EMU).
pub open spec fn slide_section(i: nat, y_off: nat, card: Seq<char>, accent1: Seq<char>, step: nat, title: Seq<char>) -> Seq<char> {
    "      <p:sp>\n"@
        + "        <p:nvSpPr><p:cNvPr id=\""@
        + dec((i + 10) as nat)
        + "\" name=\"Card "@
        + dec((i + 1) as nat)
        + "\"/><p:cNvSpPr/><p:nvPr/></p:nvSpPr>\n"@
        + "        <p:spPr><a:xfrm><a:off x=\"457200\" y=\""@
        + dec((y_off) as nat)
        + "\"/><a:ext cx=\"8229600\" cy=\"914400\"/></a:xfrm>\n"@
        + "          <a:prstGeom prst=\"roundRect\"><a:avLst/></a:prstGeom><a:solidFill><a:srgbClr val=\""@
        + strip_hashes(card)
        + "\"/></a:solidFill>\n"@
        + "        </p:spPr>\n"@
        + "        <p:txBody><a:bodyPr/><a:lstStyle/><a:p>\n"@
        + "          <a:r><a:rPr sz=\"1600\" b=\"1\"><a:solidFill><a:srgbClr val=\""@
        + strip_hashes(accent1)
        + "\"/></a:solidFill></a:rPr><a:t>"@
        + dec((step) as nat)
        + ". "@
        + xml_escape(title)
        + "</a:t></a:r>\n"@
        + "        </a:p></p:txBody>\n      </p:sp>\n"@
}

#[verifier::spinoff_prover]
#[verifier::rlimit(60)]
fn push_slide_section(out: &mut String, i: u64, y_off: u64, card: &str, accent1: &str, step: u64, title: &str)
    requires
        i + 10 <= u64::MAX,
    ensures
        final(out)@ == old(out)@ + slide_section(i as nat, y_off as nat, card@, accent1@, step as nat, title@),
{
    let ghost start = out@;
    push_str(out, "      <p:sp>\n");
    push_str(out, "        <p:nvSpPr><p:cNvPr id=\"");
    push_dec(out, i + 10);
    push_str(out, "\" name=\"Card ");
    push_dec(out, i + 1);
    push_str(out, "\"/><p:cNvSpPr/><p:nvPr/></p:nvSpPr>\n");
    push_str(out, "        <p:spPr><a:xfrm><a:off x=\"457200\" y=\"");
    push_dec(out, y_off);
    push_str(out, "\"/><a:ext cx=\"8229600\" cy=\"914400\"/></a:xfrm>\n");
    push_str(out, "          <a:prstGeom prst=\"roundRect\"><a:avLst/></a:prstGeom><a:solidFill><a:srgbClr val=\"");
    push_hex(out, card);
    push_str(out, "\"/></a:solidFill>\n");
    push_str(out, "        </p:spPr>\n");
    push_str(out, "        <p:txBody><a:bodyPr/><a:lstStyle/><a:p>\n");
    push_str(out, "          <a:r><a:rPr sz=\"1600\" b=\"1\"><a:solidFill><a:srgbClr val=\"");
    push_hex(out, accent1);
    push_str(out, "\"/></a:solidFill></a:rPr><a:t>");
    push_dec(out, step);
    push_str(out, ". ");
    push_escaped_xml(out, title);
    push_str(out, "</a:t></a:r>\n");
    push_str(out, "        </a:p></p:txBody>\n      </p:sp>\n");
    assert(out@ =~= start + slide_section(i as nat, y_off as nat, card@, accent1@, step as nat, title@));
}

/// The card shape and icon mark of metric `i` at horizontal offset `x_off`.
pub open spec fn slide_metric(i: nat, x_off: nat, card: Seq<char>, accent1: Seq<char>, accent2: Seq<char>, value: Seq<char>) -> Seq<char> {
    slide_metric_card(i, x_off, card, accent1, value) + slide_metric_icon(i, x_off, accent2)
}

/// End of the slide: closes the shape tree and the slide.
pub const SLIDE_TAIL: &'static str = "    </p:spTree>\n  </p:cSld>\n  <p:clrMapOvr><a:masterClrMapping/></p:clrMapOvr>\n</p:sld>";

/// Horizontal offset (EMU) of the first of `n` metric cards, centred on a
/// 12192000-EMU slide (0 when the row is wider than the slide).
pub open spec fn metric_row_start(n: nat) -> nat {
    let total = 8229600 * n + 120000 * (n - 1);
    if total <= 12192000 { ((12192000 - total) / 2) as nat } else { 0 }
}

/// The first `k` metric shapes.
pub open spec fn slide_metrics(ms: Seq<MetricView>, k: nat, start_x: nat, c: (Seq<char>, Seq<char>, Seq<char>, Seq<char>, Seq<char>)) -> Seq<char>
    decreases k,
{
    if k == 0 {
        seq![]
    } else {
        let i = (k - 1) as nat;
        slide_metrics(ms, i, start_x, c) + slide_metric(i, start_x + i * 8349600, c.1, c.2, c.3, ms[i as int].value)
    }
}

/// The first `k` section shapes.
pub open spec fn slide_sections(ss: Seq<SectionView>, k: nat, c: (Seq<char>, Seq<char>, Seq<char>, Seq<char>, Seq<char>)) -> Seq<char>
    decreases k,
{
    if k == 0 {
        seq![]
    } else {
        let i = (k - 1) as nat;
        slide_sections(ss, i, c) + slide_section(i, 1828800 + i * 1143000, c.1, c.2, ss[i as int].step_number, ss[i as int].title)
    }
}

/// The slide XML: title, metric cards with icon marks, the chart shapes
/// given as an XML fragment, section cards.
pub open spec fn slide_xml(s: LayoutSpecView, chart_shapes: Seq<char>) -> Seq<char> {
    let c = theme_colors(s.theme);
    let n = s.metrics.len();
    slide_head(c.0, c.4, s.title)
        + (if n > 0 { slide_metrics(s.metrics, n, metric_row_start(n), c) } else { seq![] })
        + chart_shapes + slide_sections(s.sections, s.sections.len(), c) + SLIDE_TAIL@
}

/// The presentation part for a slide of `cx` by `cy` EMU.
pub open spec fn presentation_xml(cx: nat, cy: nat) -> Seq<char> {
    PRESENTATION_HEAD@ + dec(cx) + PRESENTATION_MID@ + dec(cy) + PRESENTATION_TAIL@
}

/// The fourteen package members, in archive order, as (name bytes, data),
/// for the given slide and presentation parts.
pub open spec fn pptx_parts(slide: Seq<char>, presentation: Seq<char>) -> Seq<(Seq<u8>, Seq<u8>)> {
    seq![
        ("[Content_Types].xml".spec_bytes(), CONTENT_TYPES.spec_bytes()),
        ("_rels/.rels".spec_bytes(), ROOT_RELS.spec_bytes()),
        ("docProps/app.xml".spec_bytes(), APP_XML.spec_bytes()),
        ("docProps/core.xml".spec_bytes(), CORE_XML.spec_bytes()),
        ("ppt/presentation.xml".spec_bytes(), encode_utf8(presentation)),
        ("ppt/_rels/presentation.xml.rels".spec_bytes(), PRESENTATION_RELS.spec_bytes()),
        ("ppt/slides/slide1.xml".spec_bytes(), encode_utf8(slide)),
        ("ppt/slides/_rels/slide1.xml.rels".spec_bytes(), SLIDE_RELS.spec_bytes()),
        ("ppt/slideLayouts/slideLayout1.xml".spec_bytes(), SLIDE_LAYOUT_XML.spec_bytes()),
        ("ppt/slideLayouts/_rels/slideLayout1.xml.rels".spec_bytes(), SLIDE_LAYOUT_RELS.spec_bytes()),
        ("ppt/slideMasters/slideMaster1.xml".spec_bytes(), SLIDE_MASTER_XML.spec_bytes()),
        ("ppt/slideMasters/_rels/slideMaster1.xml.rels".spec_bytes(), SLIDE_MASTER_RELS.spec_bytes()),
        ("ppt/theme/theme1.xml".spec_bytes(), THEME_XML.spec_bytes()),
        ("ppt/theme/_rels/theme1.xml.rels".spec_bytes(), THEME_RELS.spec_bytes()),
    ]
}

/// The package members of a specification with the given chart fragment.
pub open spec fn pptx_members(s: LayoutSpecView, chart_shapes: Seq<char>) -> Seq<(Seq<u8>, Seq<u8>)> {
    let (w, h) = dims(s.aspect_ratio);
    pptx_parts(slide_xml(s, chart_shapes), presentation_xml((w * 12700) as nat, (h * 12700) as nat))
}

fn pptx_entries<'a>(slide: &'a str, presentation: &'a str) -> (v: Vec<(&'a str, &'a [u8])>)
    ensures
        member_bytes(v@) == pptx_parts(slide@, presentation@),
{
    let v: Vec<(&str, &[u8])> = vec![
        ("[Content_Types].xml", CONTENT_TYPES.as_bytes()),
        ("_rels/.rels", ROOT_RELS.as_bytes()),
        ("docProps/app.xml", APP_XML.as_bytes()),
        ("docProps/core.xml", CORE_XML.as_bytes()),
        ("ppt/presentation.xml", presentation.as_bytes()),
        ("ppt/_rels/presentation.xml.rels", PRESENTATION_RELS.as_bytes()),
        ("ppt/slides/slide1.xml", slide.as_bytes()),
        ("ppt/slides/_rels/slide1.xml.rels", SLIDE_RELS.as_bytes()),
        ("ppt/slideLayouts/slideLayout1.xml", SLIDE_LAYOUT_XML.as_bytes()),
        ("ppt/slideLayouts/_rels/slideLayout1.xml.rels", SLIDE_LAYOUT_RELS.as_bytes()),
        ("ppt/slideMasters/slideMaster1.xml", SLIDE_MASTER_XML.as_bytes()),
        ("ppt/slideMasters/_rels/slideMaster1.xml.rels", SLIDE_MASTER_RELS.as_bytes()),
        ("ppt/theme/theme1.xml", THEME_XML.as_bytes()),
        ("ppt/theme/_rels/theme1.xml.rels", THEME_RELS.as_bytes()),
    ];
    assert(member_bytes(v@) =~= pptx_parts(slide@, presentation@));
    v
}

fn presentation_part(cx: u32, cy: u32) -> (p: String)
    ensures
        p@ == presentation_xml(cx as nat, cy as nat),
{
    let mut p = String::new();
    push_str(&mut p, PRESENTATION_HEAD);
    push_dec(&mut p, cx as u64);
    push_str(&mut p, PRESENTATION_MID);
    push_dec(&mut p, cy as u64);
    push_str(&mut p, PRESENTATION_TAIL);
    assert(p@ =~= presentation_xml(cx as nat, cy as nat));
    p
}

/// A specification the package writer handles without overflow: every
/// metric card's icon id `130 + i` fits a `u32`, and for the last section `j`
/// its id `j + 10` fits a `usize` and its offset `1828800 + j * 1143000` a
/// `u64`.
pub open spec fn pptx_exportable(s: LayoutSpecView) -> bool {
    &&& (s.metrics.len() == 0 || 130 + (s.metrics.len() - 1) <= u32::MAX)
    &&& (s.sections.len() == 0 || (s.sections.len() - 1) + 10 <= usize::MAX)
    &&& (s.sections.len() == 0 || 1828800 + (s.sections.len() - 1) * 1143000 <= u64::MAX)
}

fn push_slide_xml(out: &mut String, spec: &InfographicLayoutSpec, chart_shapes: &str)
    requires
        old(out)@ == Seq::<char>::empty(),
        pptx_exportable(spec@),
    ensures
        final(out)@ == slide_xml(spec@, chart_shapes@),
{
    let colors = spec.theme.colors();
    let (bg_hex, card_hex, accent1_hex, accent2_hex, text_hex) = colors;
    let ghost sv = spec@;
    let ghost c = theme_colors(spec.theme);
    push_slide_head(out, bg_hex, text_hex, spec.title.as_str());
    let ghost head = out@;

    if spec.metrics.len() > 0 {
        let n = spec.metrics.len() as u64;
        let card_w_emu = 8229600u64;
        let gap_emu = 120000u64;
        let total_w = card_w_emu * n + gap_emu * (n - 1);
        let start_x = (if 12192000u64 >= total_w { 12192000u64 - total_w } else { 0 }) / 2;
        assert(start_x as nat == metric_row_start(n as nat));
        let mut i: usize = 0;
        while i < spec.metrics.len()
            invariant
                i <= spec.metrics.len(),
                n as nat == sv.metrics.len(),
                sv == spec@,
                pptx_exportable(sv),
                start_x <= 12192000,
                card_w_emu == 8229600,
                gap_emu == 120000,
                card_hex@ == c.1,
                accent1_hex@ == c.2,
                accent2_hex@ == c.3,
                out@ == head + slide_metrics(sv.metrics, i as nat, start_x as nat, c),
            decreases spec.metrics.len() - i,
        {
            let m = &spec.metrics[i];
            assert((i as u64) * 8349600 <= 0x1_0000_0000 * 8349600) by (nonlinear_arith)
                requires i <= 0x1_0000_0000;
            let x_off = start_x + (i as u64) * (card_w_emu + gap_emu);
            push_slide_metric_card(out, i as u64, x_off, card_hex, accent1_hex, m.value.as_str());
            push_slide_metric_icon(out, i as u64, x_off, accent2_hex);
            assert(sv.metrics[i as int] == m@);
            i = i + 1;
        }
    }
    push_str(out, chart_shapes);
    let ghost mid = out@;
    let mut j: usize = 0;
    while j < spec.sections.len()
        invariant
            j <= spec.sections.len(),
            sv == spec@,
            pptx_exportable(sv),
            card_hex@ == c.1,
            accent1_hex@ == c.2,
            out@ == mid + slide_sections(sv.sections, j as nat, c),
        decreases spec.sections.len() - j,
    {
        let s = &spec.sections[j];
        let y_off = 1828800 + (j as u64) * 1143000;
        push_slide_section(out, j as u64, y_off, card_hex, accent1_hex, s.step_number as u64, s.title.as_str());
        assert(sv.sections[j as int] == s@);
        j = j + 1;
    }
    push_str(out, SLIDE_TAIL);
}

/// PowerPoint package exporter.
pub struct PPTXPresentationExporter;

impl PPTXPresentationExporter {
    /// Whether `spec` can be exported (what `generate_pptx_bytes` requires).
    pub fn exportable(spec: &InfographicLayoutSpec) -> (r: bool)
        ensures
            r == pptx_exportable(spec@),
    {
        let m = spec.metrics.len();
        let s = spec.sections.len();
        (m == 0 || 130 + (m as u128 - 1) <= u32::MAX as u128)
            && (s == 0 || (s as u128 - 1) + 10 <= usize::MAX as u128)
            && (s == 0 || 1828800 + (s as u128 - 1) * 1143000 <= u64::MAX as u128)
    }

    /// Builds the `.pptx` package of `spec` as ZIP bytes: the fixed OOXML
    /// parts, the presentation part sized to the canvas (12700 EMU per point)
    /// and one slide. `chart_shapes` is the chart's `<p:sp>` XML fragment
    /// (empty when the layout has no chart); it is placed after the metric
    /// cards.
    pub fn generate_pptx_bytes(spec: &InfographicLayoutSpec, chart_shapes: &str) -> (z: Vec<u8>)
        requires
            pptx_exportable(spec@),
        ensures
            z@ == zip_archive(pptx_members(spec@, chart_shapes@)),
    {
        let (w_pt, h_pt) = spec.aspect_ratio.dimensions();
        let sld_cx = w_pt * 12700;
        let sld_cy = h_pt * 12700;

        let mut slide = String::new();
        push_slide_xml(&mut slide, spec, chart_shapes);

        let presentation = presentation_part(sld_cx, sld_cy);
        let entries = pptx_entries(slide.as_str(), presentation.as_str());
        zip_package(entries.as_slice())
    }
}


/// The package is a function of the specification's content and the chart
/// fragment alone: specifications with equal content give byte-identical
/// archives (no time stamp, no randomness; every member carries the same
/// fixed date and time fields).
pub proof fn lemma_pptx_deterministic(s1: LayoutSpecView, s2: LayoutSpecView, c1: Seq<char>, c2: Seq<char>)
    requires
        s1 == s2,
        c1 == c2,
    ensures
        zip_archive(pptx_members(s1, c1)) == zip_archive(pptx_members(s2, c2)),
{
}

/// XML-escaped text holds no `<`, `>`, `"` or `'`: markup and quotes in the
/// input all become entity references.
pub proof fn lemma_xml_escape_no_markup(s: Seq<char>)
    ensures
        forall|i: int| 0 <= i < xml_escape(s).len() ==> {
            let c = #[trigger] xml_escape(s)[i];
            c != '<' && c != '>' && c != '"' && c != '\''
        },
    decreases s.len(),
{
    if s.len() > 0 {
        lemma_xml_escape_no_markup(s.drop_last());
        let p = xml_escape(s.drop_last());
        let e = xml_escape_char(s.last());
        reveal_strlit("&amp;");
        reveal_strlit("&lt;");
        reveal_strlit("&gt;");
        reveal_strlit("&quot;");
        reveal_strlit("&apos;");
        assert forall|i: int| 0 <= i < xml_escape(s).len() implies {
            let c = #[trigger] xml_escape(s)[i];
            c != '<' && c != '>' && c != '"' && c != '\''
        } by {
            if i >= p.len() {
                assert(xml_escape(s)[i] == e[i - p.len()]);
            } else {
                assert(xml_escape(s)[i] == p[i]);
            }
        }
    }
}

proof fn lemma_metrics_hold_card(ms: Seq<MetricView>, k: nat, start_x: nat, c: (Seq<char>, Seq<char>, Seq<char>, Seq<char>, Seq<char>), i: nat)
    requires
        i < k,
    ensures
        crate::router::is_piece(
            slide_metrics(ms, k, start_x, c),
            slide_metric_card(i, start_x + i * 8349600, c.1, c.2, ms[i as int].value),
        ),
    decreases k,
{
    let j = (k - 1) as nat;
    let prev = slide_metrics(ms, j, start_x, c);
    let card = slide_metric_card(j, start_x + j * 8349600, c.1, c.2, ms[j as int].value);
    let icon = slide_metric_icon(j, start_x + j * 8349600, c.3);
    assert(slide_metrics(ms, k, start_x, c) =~= prev + (card + icon));
    if i == j {
        crate::router::lemma_piece_left(card, icon);
        crate::router::lemma_piece_right(prev, card + icon);
        crate::router::lemma_piece_trans(prev + (card + icon), card + icon, card);
    } else {
        lemma_metrics_hold_card(ms, j, start_x, c, i);
        crate::router::lemma_piece_left(prev, card + icon);
        crate::router::lemma_piece_trans(prev + (card + icon), prev,
            slide_metric_card(i, start_x + i * 8349600, c.1, c.2, ms[i as int].value));
    }
}

/// The slide part of the package (`ppt/slides/slide1.xml`) holds, for each
/// metric `i`, the card shape named `Metric i+1`, placed in the centred row
/// and filled with the theme's card color, whose text run is the metric's
/// value, XML-escaped.
#[verifier::spinoff_prover]
#[verifier::rlimit(40)]
pub proof fn lemma_slide_metric_values(s: LayoutSpecView, chart_shapes: Seq<char>, i: int)
    requires
        0 <= i < s.metrics.len(),
    ensures
        pptx_members(s, chart_shapes)[6] == ("ppt/slides/slide1.xml".spec_bytes(), encode_utf8(slide_xml(s, chart_shapes))),
        ({
            let c = theme_colors(s.theme);
            let x = metric_row_start(s.metrics.len()) + i * 8349600;
            crate::router::is_piece(
                slide_xml(s, chart_shapes),
                "\" name=\"Metric "@ + dec((i + 1) as nat) + "\"/><p:cNvSpPr/><p:nvPr/></p:nvSpPr>\n"@
                    + "        <p:spPr><a:xfrm><a:off x=\""@ + dec(x as nat) + "\" y=\"1371600\"/><a:ext cx=\""@ + "8229600"@
                    + "\" cy=\"914400\"/></a:xfrm>\n"@
                    + "          <a:prstGeom prst=\"roundRect\"><a:avLst/></a:prstGeom><a:solidFill><a:srgbClr val=\""@
                    + strip_hashes(c.1) + "\"/></a:solidFill>\n"@ + "        </p:spPr>\n"@
                    + "        <p:txBody><a:bodyPr/><a:lstStyle/><a:p>\n"@
                    + "          <a:r><a:rPr sz=\"2000\" b=\"1\"><a:solidFill><a:srgbClr val=\""@ + strip_hashes(c.2)
                    + "\"/></a:solidFill></a:rPr><a:t>"@ + xml_escape(s.metrics[i].value) + "</a:t></a:r>\n"@,
            )
        }),
{
    let c = theme_colors(s.theme);
    let n = s.metrics.len();
    let x = metric_row_start(n) + i * 8349600;
    let v = s.metrics[i].value;
    let card = slide_metric_card(i as nat, x as nat, c.1, c.2, v);
    let piece = "\" name=\"Metric "@ + dec((i + 1) as nat) + "\"/><p:cNvSpPr/><p:nvPr/></p:nvSpPr>\n"@
        + "        <p:spPr><a:xfrm><a:off x=\""@ + dec(x as nat) + "\" y=\"1371600\"/><a:ext cx=\""@ + "8229600"@
        + "\" cy=\"914400\"/></a:xfrm>\n"@
        + "          <a:prstGeom prst=\"roundRect\"><a:avLst/></a:prstGeom><a:solidFill><a:srgbClr val=\""@
        + strip_hashes(c.1) + "\"/></a:solidFill>\n"@ + "        </p:spPr>\n"@
        + "        <p:txBody><a:bodyPr/><a:lstStyle/><a:p>\n"@
        + "          <a:r><a:rPr sz=\"2000\" b=\"1\"><a:solidFill><a:srgbClr val=\""@ + strip_hashes(c.2)
        + "\"/></a:solidFill></a:rPr><a:t>"@ + xml_escape(v) + "</a:t></a:r>\n"@;
    let pre = "      <p:sp>\n"@ + "        <p:nvSpPr><p:cNvPr id=\""@ + dec((30 + i) as nat);
    let post = "        </a:p></p:txBody>\n      </p:sp>\n"@;
    assert(card =~= pre + piece + post);
    crate::router::lemma_piece_left(pre + piece, post);
    crate::router::lemma_piece_right(pre, piece);
    crate::router::lemma_piece_trans(pre + piece + post, pre + piece, piece);
    let ms = slide_metrics(s.metrics, n, metric_row_start(n), c);
    lemma_metrics_hold_card(s.metrics, n, metric_row_start(n), c, i as nat);
    crate::router::lemma_piece_trans(ms, card, piece);
    let head = slide_head(c.0, c.4, s.title);
    let rest = chart_shapes + slide_sections(s.sections, s.sections.len(), c) + SLIDE_TAIL@;
    assert(slide_xml(s, chart_shapes) =~= (head + ms) + rest);
    crate::router::lemma_piece_right(head, ms);
    crate::router::lemma_piece_left(head + ms, rest);
    crate::router::lemma_piece_trans(head + ms, ms, piece);
    crate::router::lemma_piece_trans(slide_xml(s, chart_shapes), head + ms, piece);
}

} // verus!
