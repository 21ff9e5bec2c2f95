//! Native PowerPoint shapes for chart glyphs: rectangles (bars, cells) and
//! stroked outline shapes, positioned in points and written in EMU.

use crate::exporter::{push_hex, strip_hashes};
use crate::strutil::{dec, push_dec, push_str};
use vstd::prelude::*;

verus! {

/// The color roles a chart glyph is drawn with (hex color strings).
#[derive(Debug, Clone, Copy)]
pub struct ChartColors {
    pub bg: &'static str,
    pub card_bg: &'static str,
    pub accent1: &'static str,
    pub accent2: &'static str,
    pub text: &'static str,
}

/// EMU per point.
pub const EMU_PER_PT: u64 = 12700;

/// A length in points, in EMU.
pub fn emu(v: u32) -> (r: u64)
    ensures
        r == v * 12700,
{
    v as u64 * EMU_PER_PT
}

/// The frame and geometry common to every shape: id, name, offset and
/// extent (in EMU) and a rectangle geometry.
pub open spec fn shape_frame(id: nat, x: nat, y: nat, w: nat, h: nat) -> Seq<char> {
    "<p:sp><p:nvSpPr><p:cNvPr id=\""@ + dec(id) + "\" name=\"c"@ + dec(id)
        + "\"/><p:cNvSpPr/><p:nvPr/></p:nvSpPr><p:spPr><a:xfrm><a:off x=\""@ + dec(x * 12700) + "\" y=\""@
        + dec(y * 12700) + "\"/><a:ext cx=\""@ + dec(w * 12700) + "\" cy=\""@ + dec(h * 12700)
        + "\"/></a:xfrm><a:prstGeom prst=\"rect\"><a:avLst/></a:prstGeom>"@
}

/// The empty text body that closes every shape.
pub open spec fn shape_tail() -> Seq<char> {
    "<p:txBody><a:bodyPr/><a:lstStyle/><a:p><a:endParaRPr lang=\"en-US\"/></a:p></p:txBody></p:sp>\n"@
}

/// A filled rectangle shape.
pub open spec fn rect_shape(id: nat, x: nat, y: nat, w: nat, h: nat, fill: Seq<char>) -> Seq<char> {
    shape_frame(id, x, y, w, h) + "<a:solidFill><a:srgbClr val=\""@ + strip_hashes(fill)
        + "\"/></a:solidFill></p:spPr>"@ + shape_tail()
}

/// A stroked, unfilled outline shape.
pub open spec fn outline_shape(id: nat, x: nat, y: nat, w: nat, h: nat, stroke: Seq<char>) -> Seq<char> {
    shape_frame(id, x, y, w, h) + "<a:ln w=\"28575\"><a:solidFill><a:srgbClr val=\""@ + strip_hashes(stroke)
        + "\"/></a:solidFill></a:ln><a:noFill/></p:spPr>"@ + shape_tail()
}

fn push_frame(xml: &mut String, id: u32, x: u32, y: u32, w: u32, h: u32)
    ensures
        final(xml)@ == old(xml)@ + shape_frame(id as nat, x as nat, y as nat, w as nat, h as nat),
{
    let ghost start = xml@;
    push_str(xml, "<p:sp><p:nvSpPr><p:cNvPr id=\"");
    push_dec(xml, id as u64);
    push_str(xml, "\" name=\"c");
    push_dec(xml, id as u64);
    push_str(xml, "\"/><p:cNvSpPr/><p:nvPr/></p:nvSpPr><p:spPr><a:xfrm><a:off x=\"");
    push_dec(xml, emu(x));
    push_str(xml, "\" y=\"");
    push_dec(xml, emu(y));
    push_str(xml, "\"/><a:ext cx=\"");
    push_dec(xml, emu(w));
    push_str(xml, "\" cy=\"");
    push_dec(xml, emu(h));
    push_str(xml, "\"/></a:xfrm><a:prstGeom prst=\"rect\"><a:avLst/></a:prstGeom>");
    assert(xml@ =~= start + shape_frame(id as nat, x as nat, y as nat, w as nat, h as nat));
}

/// Appends one filled rectangle shape, `(x, y)` and `w` by `h` in points.
pub fn shape_rect(xml: &mut String, id: u32, x: u32, y: u32, w: u32, h: u32, fill: &str)
    ensures
        final(xml)@ == old(xml)@ + rect_shape(id as nat, x as nat, y as nat, w as nat, h as nat, fill@),
{
    let ghost start = xml@;
    push_frame(xml, id, x, y, w, h);
    push_str(xml, "<a:solidFill><a:srgbClr val=\"");
    push_hex(xml, fill);
    push_str(xml, "\"/></a:solidFill></p:spPr>");
    push_str(xml, "<p:txBody><a:bodyPr/><a:lstStyle/><a:p><a:endParaRPr lang=\"en-US\"/></a:p></p:txBody></p:sp>\n");
    assert(xml@ =~= start + rect_shape(id as nat, x as nat, y as nat, w as nat, h as nat, fill@));
}

/// Appends one stroked outline shape (the frame of a polyline or path),
/// `(x, y)` and `w` by `h` in points.
pub fn shape_freeform(xml: &mut String, id: u32, x: u32, y: u32, w: u32, h: u32, stroke: &str)
    ensures
        final(xml)@ == old(xml)@ + outline_shape(id as nat, x as nat, y as nat, w as nat, h as nat, stroke@),
{
    let ghost start = xml@;
    push_frame(xml, id, x, y, w, h);
    push_str(xml, "<a:ln w=\"28575\"><a:solidFill><a:srgbClr val=\"");
    push_hex(xml, stroke);
    push_str(xml, "\"/></a:solidFill></a:ln><a:noFill/></p:spPr>");
    push_str(xml, "<p:txBody><a:bodyPr/><a:lstStyle/><a:p><a:endParaRPr lang=\"en-US\"/></a:p></p:txBody></p:sp>\n");
    assert(xml@ =~= start + outline_shape(id as nat, x as nat, y as nat, w as nat, h as nat, stroke@));
}

} // verus!
