//! The PNG raster of a layout: the drawing list that lays out the canvas
//! (rectangles, text runs, icon glyphs, the chart box) and the PNG encoding
//! of the painted pixels.
//!
//! Rectangles are painted here; text runs, icons and charts are painted with
//! font and path geometry by the caller, in list order, between them.

use crate::exporter::strip_hashes;
use crate::raster::{canvas, fill_rect, blank, rect_painted, rows_in, Rgb};
use crate::router::{dims, theme_colors, InfographicLayoutSpec, LayoutSpecView, MetricView, PaletteTheme, SectionView};
use crate::strutil::{dec, push_dec, to_uppercase, uppercase};
use vstd::prelude::*;
use vstd::string::*;
use vstd::utf8::encode_utf8;

verus! {

/// One drawing step of the raster.
pub enum RasterOp {
    /// Fill `[x0, x1) x [y0, y1)` with `color`.
    Fill { x0: usize, y0: usize, x1: usize, y1: usize, color: Rgb },
    /// Draw `text` with its baseline origin at `(x10 / 10, y10 / 10)` px and a
    /// font size of `size` px.
    Text { x10: usize, y10: usize, size: u32, color: Rgb, text: String },
    /// Draw the icon glyph `name` centered on `(cx, cy)` with a stroke of
    /// `stroke` px.
    Icon { cx: usize, cy: usize, stroke: u32, color: Rgb, name: String },
    /// Draw the chart in the box at `(x, y)`, `w` by `h` px.
    Chart { x: usize, y: usize, w: usize, h: usize, accent1: Rgb, accent2: Rgb, text: Rgb },
}

/// A drawing step, by value.
pub enum OpView {
    Fill { x0: int, y0: int, x1: int, y1: int, color: Rgb },
    Text { x10: int, y10: int, size: int, color: Rgb, text: Seq<char> },
    Icon { cx: int, cy: int, stroke: int, color: Rgb, name: Seq<char> },
    Chart { x: int, y: int, w: int, h: int, accent1: Rgb, accent2: Rgb, text: Rgb },
}

impl View for RasterOp {
    type V = OpView;

    open spec fn view(&self) -> OpView {
        match self {
            RasterOp::Fill { x0, y0, x1, y1, color } => OpView::Fill {
                x0: *x0 as int,
                y0: *y0 as int,
                x1: *x1 as int,
                y1: *y1 as int,
                color: *color,
            },
            RasterOp::Text { x10, y10, size, color, text } => OpView::Text {
                x10: *x10 as int,
                y10: *y10 as int,
                size: *size as int,
                color: *color,
                text: text@,
            },
            RasterOp::Icon { cx, cy, stroke, color, name } => OpView::Icon {
                cx: *cx as int,
                cy: *cy as int,
                stroke: *stroke as int,
                color: *color,
                name: name@,
            },
            RasterOp::Chart { x, y, w, h, accent1, accent2, text } => OpView::Chart {
                x: *x as int,
                y: *y as int,
                w: *w as int,
                h: *h as int,
                accent1: *accent1,
                accent2: *accent2,
                text: *text,
            },
        }
    }
}

/// The drawing steps by value.
pub open spec fn op_views(ops: Seq<RasterOp>) -> Seq<OpView> {
    ops.map_values(|o: RasterOp| o@)
}

/// Value of an ASCII hexadecimal digit, if it is one.
pub open spec fn hex_val(c: char) -> Option<u8> {
    if '0' <= c && c <= '9' {
        Some((c as u32 - '0' as u32) as u8)
    } else if 'a' <= c && c <= 'f' {
        Some((c as u32 - 'a' as u32 + 10) as u8)
    } else if 'A' <= c && c <= 'F' {
        Some((c as u32 - 'A' as u32 + 10) as u8)
    } else {
        None
    }
}

/// What std's `u8::from_str_radix(.., 16)` gives for the two characters
/// `a`, `b` (an optional leading `+`, then hexadecimal digits), or 0 when it
/// fails.
pub open spec fn hex_pair(a: char, b: char) -> u8 {
    match (hex_val(a), hex_val(b)) {
        (Some(x), Some(y)) => (x * 16 + y) as u8,
        _ => if a == '+' {
            match hex_val(b) {
                Some(y) => y,
                None => 0,
            }
        } else {
            0
        },
    }
}

/// The color `#rrggbb` names; `(20, 20, 20)` when the text after the leading
/// `#` characters is not six characters long, and 0 for a channel that is not
/// a hexadecimal pair.
pub open spec fn hex_rgb(s: Seq<char>) -> Rgb {
    let c = strip_hashes(s);
    if c.len() != 6 {
        (20, 20, 20)
    } else {
        (hex_pair(c[0], c[1]), hex_pair(c[2], c[3]), hex_pair(c[4], c[5]))
    }
}

/// All characters are ASCII.
pub open spec fn ascii(s: Seq<char>) -> bool {
    forall|i: int| 0 <= i < s.len() ==> (#[trigger] s[i] as u32) < 128
}

fn hex_digit(c: char) -> (r: Option<u8>)
    ensures
        r == hex_val(c),
{
    if '0' <= c && c <= '9' {
        Some((c as u32 - '0' as u32) as u8)
    } else if 'a' <= c && c <= 'f' {
        Some((c as u32 - 'a' as u32 + 10) as u8)
    } else if 'A' <= c && c <= 'F' {
        Some((c as u32 - 'A' as u32 + 10) as u8)
    } else {
        None
    }
}

fn pair_value(a: char, b: char) -> (r: u8)
    ensures
        r == hex_pair(a, b),
{
    match (hex_digit(a), hex_digit(b)) {
        (Some(x), Some(y)) => {
            assert(x < 16 && y < 16);
            x * 16 + y
        },
        _ => if a == '+' {
            match hex_digit(b) {
                Some(y) => y,
                None => 0,
            }
        } else {
            0
        },
    }
}

proof fn lemma_strip_hashes(s: Seq<char>, k: int)
    requires
        0 <= k <= s.len(),
        forall|i: int| 0 <= i < k ==> s[i] == '#',
        k == s.len() || s[k] != '#',
    ensures
        strip_hashes(s) == s.skip(k),
    decreases k,
{
    if k == 0 {
        assert(s.skip(0) == s);
    } else {
        assert(s.drop_first().skip(k - 1) == s.skip(k));
        lemma_strip_hashes(s.drop_first(), k - 1);
    }
}

/// The bytes after the leading `#` bytes.
pub open spec fn strip_hash_bytes(b: Seq<u8>) -> Seq<u8>
    decreases b.len(),
{
    if b.len() > 0 && b[0] == 0x23 { strip_hash_bytes(b.drop_first()) } else { b }
}

/// What `u8::from_str_radix(.., 16)` gives for a two-byte piece of UTF-8
/// text, or 0 when it fails: two ASCII bytes read as `hex_pair`, and a
/// single two-byte character, which is no digit, as 0.
pub open spec fn byte_pair(a: u8, b: u8) -> u8 {
    if a < 128 && b < 128 { hex_pair(a as char, b as char) } else { 0 }
}

/// The color that the UTF-8 text `b` names, counted in bytes: `(20, 20, 20)`
/// when the text after the leading `#`s is not six bytes long, else each
/// two-byte piece read as `byte_pair`.
pub open spec fn hex_rgb_bytes(b: Seq<u8>) -> Rgb {
    let c = strip_hash_bytes(b);
    if c.len() != 6 {
        (20, 20, 20)
    } else {
        (byte_pair(c[0], c[1]), byte_pair(c[2], c[3]), byte_pair(c[4], c[5]))
    }
}

/// Whether the two-byte pieces of the text after the leading `#`s fall on
/// character boundaries (else slicing them would panic).
pub open spec fn hex_pieces_whole(b: Seq<u8>) -> bool {
    let c = strip_hash_bytes(b);
    c.len() == 6 ==> !vstd::utf8::is_continuation_byte(c[2]) && !vstd::utf8::is_continuation_byte(c[4])
}

/// The color that the text `s` names: for ASCII text `hex_rgb`, for any
/// other text `hex_rgb_bytes` of its UTF-8 bytes.
pub open spec fn hex_color(s: Seq<char>) -> Rgb {
    if ascii(s) { hex_rgb(s) } else { hex_rgb_bytes(encode_utf8(s)) }
}

/// Parses `#rrggbb` (any number of leading `#`) into an RGB triple; `(20, 20,
/// 20)` when the rest is not six bytes long, 0 for a channel that does not
/// parse.
pub fn hex_to_rgb_u8(hex: &str) -> (r: Rgb)
    requires
        ascii(hex@) || hex_pieces_whole(encode_utf8(hex@)),
    ensures
        r == hex_color(hex@),
        ascii(hex@) ==> r == hex_rgb(hex@),
{
    if !ascii_text(hex) {
        return hex_bytes_rgb(hex.as_bytes());
    }
    let cs = crate::strutil::str_chars(hex);
    let mut k: usize = 0;
    while k < cs.len() && cs[k] == '#'
        invariant
            k <= cs.len(),
            cs@ == hex@,
            forall|i: int| 0 <= i < k ==> cs@[i] == '#',
        decreases cs.len() - k,
    {
        k = k + 1;
    }
    proof {
        lemma_strip_hashes(hex@, k as int);
    }
    if cs.len() - k != 6 {
        return (20, 20, 20);
    }
    let r = pair_value(cs[k], cs[k + 1]);
    let g = pair_value(cs[k + 2], cs[k + 3]);
    let b = pair_value(cs[k + 4], cs[k + 5]);
    (r, g, b)
}

proof fn lemma_strip_hash_bytes(b: Seq<u8>, k: int)
    requires
        0 <= k <= b.len(),
        forall|i: int| 0 <= i < k ==> b[i] == 0x23,
        k == b.len() || b[k] != 0x23,
    ensures
        strip_hash_bytes(b) == b.skip(k),
    decreases k,
{
    if k == 0 {
        assert(b.skip(0) == b);
    } else {
        assert(b.drop_first().skip(k - 1) == b.skip(k));
        lemma_strip_hash_bytes(b.drop_first(), k - 1);
    }
}

/// `hex_rgb_bytes` of UTF-8 bytes whose two-byte pieces are whole.
fn hex_bytes_rgb(b: &[u8]) -> (r: Rgb)
    requires
        hex_pieces_whole(b@),
    ensures
        r == hex_rgb_bytes(b@),
{
    let mut k: usize = 0;
    while k < b.len() && b[k] == 0x23
        invariant
            k <= b.len(),
            forall|i: int| 0 <= i < k ==> b@[i] == 0x23,
        decreases b.len() - k,
    {
        k = k + 1;
    }
    proof {
        lemma_strip_hash_bytes(b@, k as int);
    }
    if b.len() - k != 6 {
        return (20, 20, 20);
    }
    let r = byte_pair_value(b[k], b[k + 1]);
    let g = byte_pair_value(b[k + 2], b[k + 3]);
    let bl = byte_pair_value(b[k + 4], b[k + 5]);
    (r, g, bl)
}

/// Whether every character of `s` is ASCII.
fn ascii_text(s: &str) -> (r: bool)
    ensures
        r == ascii(s@),
{
    let cs = crate::strutil::str_chars(s);
    let mut i: usize = 0;
    while i < cs.len()
        invariant
            i <= cs.len(),
            cs@ == s@,
            forall|j: int| 0 <= j < i ==> (#[trigger] s@[j] as u32) < 128,
        decreases cs.len() - i,
    {
        if (cs[i] as u32) >= 128 {
            return false;
        }
        i = i + 1;
    }
    true
}

fn byte_pair_value(a: u8, b: u8) -> (r: u8)
    ensures
        r == byte_pair(a, b),
{
    if a < 128 && b < 128 {
        pair_value(a as char, b as char)
    } else {
        0
    }
}

/// The color of secondary text.
pub open spec fn muted() -> Rgb {
    (154, 163, 175)
}

/// Width of each of `n` metric cards on a canvas `width` wide (40 px margins,
/// 16 px gaps); 0 without metrics.
pub open spec fn png_card_width(width: int, n: int) -> int {
    if n == 0 {
        0
    } else {
        (width - 80 - (n - 1) * 16) / n
    }
}

/// The steps of the first `k` metric cards.
pub open spec fn metric_ops(ms: Seq<MetricView>, k: nat, cw: int, card: Rgb, acc: Rgb, acc2: Rgb) -> Seq<OpView>
    decreases k,
{
    if k == 0 {
        seq![]
    } else {
        let i = (k - 1) as int;
        let x = 40 + i * (cw + 16);
        metric_ops(ms, (k - 1) as nat, cw, card, acc, acc2) + seq![
            OpView::Fill { x0: x, y0: 130, x1: x + cw, y1: 210, color: card },
            OpView::Text { x10: (x + 16) * 10, y10: 1720, size: 24, color: acc, text: ms[i].value },
            OpView::Text { x10: (x + 16) * 10, y10: 1940, size: 11, color: muted(), text: uppercase(ms[i].label) },
            OpView::Icon { cx: x + cw - 20, cy: 160, stroke: 2, color: acc2, name: ms[i].icon },
        ]
    }
}

/// The steps of the first `k` section cards, the first at `start_y`, each
/// with a connector to the next except the last of `n`.
pub open spec fn section_ops(ss: Seq<SectionView>, k: nat, n: nat, start_y: int, width: int, card: Rgb, acc: Rgb, bg: Rgb, text: Rgb) -> Seq<OpView>
    decreases k,
{
    if k == 0 {
        seq![]
    } else {
        let i = (k - 1) as int;
        let y = start_y + i * 116;
        let connector = if i < n - 1 {
            seq![OpView::Fill { x0: 70, y0: y + 48, x1: 74, y1: y + 116, color: acc }]
        } else {
            seq![]
        };
        section_ops(ss, (k - 1) as nat, n, start_y, width, card, acc, bg, text) + connector + seq![
            OpView::Fill { x0: 40, y0: y, x1: width - 40, y1: y + 100, color: card },
            OpView::Fill { x0: 16, y0: y + 26, x1: 46, y1: y + 46, color: acc },
            OpView::Text { x10: 245, y10: (y + 44) * 10, size: 13, color: bg, text: dec(ss[i].step_number) },
            OpView::Text { x10: 600, y10: (y + 38) * 10, size: 16, color: text, text: ss[i].title },
            OpView::Text { x10: 600, y10: (y + 60) * 10, size: 12, color: muted(), text: ss[i].description },
        ]
    }
}

/// The drawing list of the raster of `s` (with a chart box when `has_chart`).
pub open spec fn png_ops(s: LayoutSpecView, has_chart: bool) -> Seq<OpView> {
    let (width, height) = dims(s.aspect_ratio);
    let c = theme_colors(s.theme);
    let bg = hex_rgb(c.0);
    let card = hex_rgb(c.1);
    let acc = hex_rgb(c.2);
    let acc2 = hex_rgb(c.3);
    let text = hex_rgb(c.4);
    let n = s.metrics.len() as int;
    let cw = png_card_width(width, n);
    let head = seq![
        OpView::Fill { x0: 40, y0: 50, x1: 48, y1: 98, color: acc },
        OpView::Text { x10: 600, y10: 780, size: 28, color: text, text: s.title },
    ] + (match s.subtitle {
        Some(t) => seq![OpView::Text { x10: 600, y10: 1000, size: 14, color: muted(), text: t }],
        None => seq![],
    });
    let metrics = if cw == 0 { seq![] } else { metric_ops(s.metrics, s.metrics.len(), cw, card, acc, acc2) };
    let chart = if has_chart {
        seq![OpView::Chart { x: 40, y: 240, w: width - 80, h: 260, accent1: acc, accent2: acc2, text: text }]
    } else {
        seq![]
    };
    let start_y = if has_chart { 520 } else { 240 };
    head + metrics + chart + section_ops(s.sections, s.sections.len(), s.sections.len(), start_y, width, card, acc, bg, text)
}

/// The raster layout's arithmetic stays in range: the metric cards fit the
/// canvas width and the section rows fit `u32`.
pub open spec fn png_layout_fits(s: LayoutSpecView) -> bool {
    &&& s.metrics.len() == 0 || 80 + (s.metrics.len() - 1) * 16 <= dims(s.aspect_ratio).0
    &&& (520 + (s.sections.len() + 1) * 116) * 10 <= usize::MAX
}


fn push_metric_ops(ops: &mut Vec<RasterOp>, spec: &InfographicLayoutSpec, card_w: u32, card: Rgb, acc: Rgb, acc2: Rgb)
    requires
        card_w > 0,
        spec.metrics.len() > 0,
        40 + (spec.metrics.len() - 1) * (card_w + 16) + card_w <= 1200,
    ensures
        op_views(final(ops)@) == op_views(old(ops)@) + metric_ops(spec@.metrics, spec@.metrics.len(), card_w as int, card, acc, acc2),
{
    let ghost sv = spec@;
    let ghost start = op_views(ops@);
    let n = spec.metrics.len();
    assert(n <= 100) by (nonlinear_arith)
        requires
            n > 0,
            card_w > 0,
            40 + (n - 1) * (card_w + 16) + card_w <= 1200;
    let mut i: usize = 0;
    while i < n
        invariant
            i <= n,
            n == spec.metrics.len(),
            n > 0,
            n <= 100,
            sv == spec@,
            card_w > 0,
            40 + (n - 1) * (card_w + 16) + card_w <= 1200,
            op_views(ops@) == start + metric_ops(sv.metrics, i as nat, card_w as int, card, acc, acc2),
        decreases n - i,
    {
        let m = &spec.metrics[i];
        assert((i as int) * (card_w + 16) <= (n - 1) * (card_w + 16)) by (nonlinear_arith)
            requires
                (i as int) < n,
                card_w >= 0;
        let x = 40 + (i as u32) * (card_w + 16);
        let ghost before = op_views(ops@);
        let o1 = RasterOp::Fill { x0: x as usize, y0: 130, x1: (x + card_w) as usize, y1: 210, color: card };
        let o2 = RasterOp::Text { x10: ((x + 16) as usize) * 10, y10: 1720, size: 24, color: acc, text: m.value.clone() };
        let o3 = RasterOp::Text { x10: ((x + 16) as usize) * 10, y10: 1940, size: 11, color: (154, 163, 175), text: to_uppercase(m.label.as_str()) };
        let o4 = RasterOp::Icon { cx: (x + card_w - 20) as usize, cy: 160, stroke: 2, color: acc2, name: m.icon.clone() };
        ops.push(o1);
        ops.push(o2);
        ops.push(o3);
        ops.push(o4);
        assert(sv.metrics[i as int] == m@);
        assert(op_views(ops@) =~= before + seq![o1@, o2@, o3@, o4@]);
        i = i + 1;
    }
}

fn push_section_ops(ops: &mut Vec<RasterOp>, spec: &InfographicLayoutSpec, start_y: usize, width: usize, card: Rgb, acc: Rgb, bg: Rgb, text: Rgb)
    requires
        start_y <= 520,
        width >= 80,
        (520 + (spec.sections.len() + 1) * 116) * 10 <= usize::MAX,
    ensures
        op_views(final(ops)@) == op_views(old(ops)@) + section_ops(spec@.sections, spec@.sections.len(), spec@.sections.len(),
            start_y as int, width as int, card, acc, bg, text),
{
    let ghost sv = spec@;
    let ghost start = op_views(ops@);
    let n = spec.sections.len();
    let mut i: usize = 0;
    while i < n
        invariant
            i <= n,
            n == spec.sections.len(),
            sv == spec@,
            start_y <= 520,
            width >= 80,
            (520 + (n + 1) * 116) * 10 <= usize::MAX,
            op_views(ops@) == start + section_ops(sv.sections, i as nat, n as nat, start_y as int, width as int, card, acc, bg, text),
        decreases n - i,
    {
        let s = &spec.sections[i];
        assert((i as int) * 116 <= n * 116) by (nonlinear_arith)
            requires
                (i as int) < n;
        let y = start_y + i * 116;
        let ghost before = op_views(ops@);
        if i < n - 1 {
            let o0 = RasterOp::Fill { x0: 70, y0: y + 48, x1: 74, y1: y + 116, color: acc };
            ops.push(o0);
            assert(op_views(ops@) =~= before + seq![o0@]);
        } else {
            assert(op_views(ops@) =~= before + Seq::<OpView>::empty());
        }
        let ghost mid = op_views(ops@);
        let mut step = String::new();
        push_dec(&mut step, s.step_number as u64);
        let o1 = RasterOp::Fill { x0: 40, y0: y, x1: width - 40, y1: y + 100, color: card };
        let o2 = RasterOp::Fill { x0: 16, y0: y + 26, x1: 46, y1: y + 46, color: acc };
        let o3 = RasterOp::Text { x10: 245, y10: (y + 44) * 10, size: 13, color: bg, text: step };
        let o4 = RasterOp::Text { x10: 600, y10: (y + 38) * 10, size: 16, color: text, text: s.title.clone() };
        let o5 = RasterOp::Text { x10: 600, y10: (y + 60) * 10, size: 12, color: (154, 163, 175), text: s.description.clone() };
        ops.push(o1);
        ops.push(o2);
        ops.push(o3);
        ops.push(o4);
        ops.push(o5);
        assert(sv.sections[i as int] == s@);
        assert(op_views(ops@) =~= mid + seq![o1@, o2@, o3@, o4@, o5@]);
        i = i + 1;
    }
}

/// The PNG raster exporter.
pub struct PNGRasterExporter;

/// Every color role of every theme is ASCII text.
proof fn lemma_theme_colors_ascii(t: PaletteTheme)
    ensures
        ascii(theme_colors(t).0),
        ascii(theme_colors(t).1),
        ascii(theme_colors(t).2),
        ascii(theme_colors(t).3),
        ascii(theme_colors(t).4),
{
    reveal_strlit("#0B0F19");
    reveal_strlit("#111827");
    reveal_strlit("#3B82F6");
    reveal_strlit("#10B981");
    reveal_strlit("#F9FAFB");
    reveal_strlit("#0F172A");
    reveal_strlit("#1E293B");
    reveal_strlit("#6366F1");
    reveal_strlit("#06B6D4");
    reveal_strlit("#F8FAFC");
    reveal_strlit("#18181B");
    reveal_strlit("#27272A");
    reveal_strlit("#F43F5E");
    reveal_strlit("#FB923C");
    reveal_strlit("#FAFAFA");
    reveal_strlit("#1C1917");
    reveal_strlit("#292524");
    reveal_strlit("#F59E0B");
    reveal_strlit("#F5F5F4");
    reveal_strlit("#0C4A6E");
    reveal_strlit("#075985");
    reveal_strlit("#38BDF8");
    reveal_strlit("#2DD4BF");
    reveal_strlit("#F0F9FF");
    reveal_strlit("#431407");
    reveal_strlit("#7C2D12");
    reveal_strlit("#F97316");
    reveal_strlit("#FACC15");
    reveal_strlit("#FFF7ED");
    reveal_strlit("#052E16");
    reveal_strlit("#14532D");
    reveal_strlit("#22C55E");
    reveal_strlit("#A7F3D0");
    reveal_strlit("#F0FDF4");
    reveal_strlit("#111111");
    reveal_strlit("#222222");
    reveal_strlit("#FFFFFF");
    reveal_strlit("#AAAAAA");
    reveal_strlit("#F5F5F5");
}

impl PNGRasterExporter {

/// Whether the raster layout of `spec` stays in range (what `raster_ops`
/// requires).
pub fn layout_fits(spec: &InfographicLayoutSpec) -> (r: bool)
    ensures
        r == png_layout_fits(spec@),
{
    let (w, _h) = spec.aspect_ratio.dimensions();
    let n = spec.metrics.len();
    let s = spec.sections.len();
    (n == 0 || (n - 1) as u128 * 16 + 80 <= w as u128) && ((s as u128) * 116 + 636) * 10 <= usize::MAX as u128
}

/// The drawing list that lays out the PNG raster of `spec`, in painting
/// order: the title bar and texts, the metric cards (each with its value,
/// label and icon), the chart box when `has_chart`, and the section cards
/// with their step badges, texts and connectors.
pub fn raster_ops(spec: &InfographicLayoutSpec, has_chart: bool) -> (r: Vec<RasterOp>)
    requires
        png_layout_fits(spec@),
    ensures
        op_views(r@) == png_ops(spec@, has_chart),
{
    let ghost sv = spec@;
    let (width, _height) = spec.aspect_ratio.dimensions();
    let (bg_hex, card_hex, accent1_hex, accent2_hex, text_hex) = spec.theme.colors();
    proof {
        lemma_theme_colors_ascii(spec.theme);
    }
    let bg = hex_to_rgb_u8(bg_hex);
    let card = hex_to_rgb_u8(card_hex);
    let acc = hex_to_rgb_u8(accent1_hex);
    let acc2 = hex_to_rgb_u8(accent2_hex);
    let text = hex_to_rgb_u8(text_hex);
    let mut ops: Vec<RasterOp> = Vec::new();
    ops.push(RasterOp::Fill { x0: 40, y0: 50, x1: 48, y1: 98, color: acc });
    ops.push(RasterOp::Text { x10: 600, y10: 780, size: 28, color: text, text: spec.title.clone() });
    if let Some(sub) = &spec.subtitle {
        ops.push(RasterOp::Text { x10: 600, y10: 1000, size: 14, color: (154, 163, 175), text: sub.clone() });
    }
    let ghost head = op_views(ops@);
    let ghost c = theme_colors(sv.theme);
    assert(bg == hex_rgb(c.0) && card == hex_rgb(c.1) && acc == hex_rgb(c.2) && acc2 == hex_rgb(c.3) && text == hex_rgb(c.4));
    assert(head =~= seq![
        OpView::Fill { x0: 40, y0: 50, x1: 48, y1: 98, color: acc },
        OpView::Text { x10: 600, y10: 780, size: 28, color: text, text: sv.title },
    ] + (match sv.subtitle {
        Some(t) => seq![OpView::Text { x10: 600, y10: 1000, size: 14, color: muted(), text: t }],
        None => seq![],
    }));
    let n = spec.metrics.len();
    let card_w: u32 = if n == 0 {
        0
    } else {
        (width - 80 - (n as u32 - 1) * 16) / n as u32
    };
    if card_w > 0 {
        proof {
            let wi = width as int;
            let ni = n as int;
            let cw = card_w as int;
            assert((ni - 1) * (cw + 16) + cw <= wi - 80) by (nonlinear_arith)
                requires
                    ni >= 1,
                    cw == (wi - 80 - (ni - 1) * 16) / ni,
                    80 + (ni - 1) * 16 <= wi;
        }
        push_metric_ops(&mut ops, spec, card_w, card, acc, acc2);
    }
    let ghost after_metrics = op_views(ops@);
    assert(card_w as int == png_card_width(width as int, n as int));
    assert(after_metrics == head + (if card_w == 0 { seq![] } else {
        metric_ops(sv.metrics, sv.metrics.len(), card_w as int, card, acc, acc2) }));
    if has_chart {
        ops.push(RasterOp::Chart { x: 40, y: 240, w: (width - 80) as usize, h: 260, accent1: acc, accent2: acc2, text });
    }
    assert(op_views(ops@) =~= after_metrics + (if has_chart {
        seq![OpView::Chart { x: 40, y: 240, w: width - 80, h: 260, accent1: acc, accent2: acc2, text: text }]
    } else {
        seq![]
    }));
    let start_y: usize = if has_chart { 520 } else { 240 };
    push_section_ops(&mut ops, spec, start_y, width as usize, card, acc, bg, text);
    assert(op_views(ops@) =~= png_ops(sv, has_chart));
    ops
}

}

/// Bytes of a `u32`, most significant first.
pub open spec fn be32(x: u32) -> Seq<u8> {
    seq![(x / 0x1000000) as u8, ((x / 0x10000) % 256) as u8, ((x / 0x100) % 256) as u8, (x % 256) as u8]
}

/// The start of a PNG file for an 8-bit RGB image `w` by `h`: the signature
/// and the IHDR chunk up to its checksum.
pub open spec fn png_head(w: u32, h: u32) -> Seq<u8> {
    seq![137u8, 80, 78, 71, 13, 10, 26, 10] + seq![0u8, 0, 0, 13] + seq![73u8, 72, 68, 82] + be32(w) + be32(h)
        + seq![8u8, 2, 0, 0, 0]
}

/// The closing IEND chunk: zero length, type `IEND`, and the CRC-32 of the
/// type, `AE 42 60 82`.
pub open spec fn png_iend() -> Seq<u8> {
    seq![0u8, 0, 0, 0, 0x49, 0x45, 0x4E, 0x44, 0xAE, 0x42, 0x60, 0x82]
}

/// What the `png` crate's encoder writes for an 8-bit RGB image `w` by `h`
/// with default settings and pixel rows `px`.
pub uninterp spec fn png_rgb8(w: u32, h: u32, px: Seq<u8>) -> Seq<u8>;

/// Encodes with the `png` crate's `Encoder` (8-bit RGB, default compression
/// and filtering) into a byte vector. The result is named `png_rgb8` of the
/// arguments; of its bytes the contract states what the encoder's
/// `encode_header` writes first: the signature and the IHDR chunk's length,
/// type, size, depth 8, color type 2 and zero methods; and what it writes
/// last: the empty IEND chunk, which the image writer adds when it is dropped
/// at the end of the block (`write_iend`), writing nothing after it. The
/// header write and
/// the data write fail only for a zero size or a pixel buffer of another
/// length, which `requires` rules out.
#[verifier::external_body]
fn png_encode(px: &[u8], w: u32, h: u32) -> (r: Vec<u8>)
    requires
        w > 0,
        h > 0,
        px@.len() == (w as int) * (h as int) * 3,
    ensures
        r@ == png_rgb8(w, h, px@),
        r@.len() >= 41,
        r@.take(29) == png_head(w, h),
        r@.skip(r@.len() - 12) == png_iend(),
{
    let mut out: Vec<u8> = Vec::new();
    {
        let mut enc = png::Encoder::new(&mut out, w, h);
        enc.set_color(png::ColorType::Rgb);
        enc.set_depth(png::BitDepth::Eight);
        let mut writer = enc.write_header().expect("PNG header write failed");
        writer.write_image_data(px).expect("PNG data write failed");
    }
    out
}

impl PNGRasterExporter {

/// Encodes the painted pixels (8-bit RGB rows, `width` by `height`) as a
/// PNG file.
pub fn encode_png(px: &[u8], width: u32, height: u32) -> (r: Vec<u8>)
    requires
        width > 0,
        height > 0,
        px@.len() == (width as int) * (height as int) * 3,
    ensures
        r@ == png_rgb8(width, height, px@),
        r@.take(29) == png_head(width, height),
        r@.len() >= 41,
        r@.skip(r@.len() - 12) == png_iend(),
{
    png_encode(px, width, height)
}

/// The canvas of the raster of `spec`: every pixel the theme's background.
pub fn blank_canvas(spec: &InfographicLayoutSpec) -> (r: Vec<u8>)
    ensures
        r@ == blank((dims(spec.aspect_ratio).0 * dims(spec.aspect_ratio).1) as nat, hex_rgb(theme_colors(spec.theme).0)),
{
    let (width, height) = spec.aspect_ratio.dimensions();
    let (bg_hex, _c, _a1, _a2, _t) = spec.theme.colors();
    proof {
        lemma_theme_colors_ascii(spec.theme);
    }
    let bg = hex_to_rgb_u8(bg_hex);
    canvas((width as usize) * (height as usize), bg)
}

}

/// The raster's metric cards lie between the 40 px side margins and do not
/// overlap: card `i` ends 16 px before card `i + 1` starts, and the last ends
/// by `width - 40`.
pub proof fn lemma_png_cards_fit(width: int, n: int, i: int)
    requires
        n >= 1,
        80 + (n - 1) * 16 <= width,
        0 <= i < n,
    ensures
        png_card_width(width, n) >= 0,
        40 + i * (png_card_width(width, n) + 16) + png_card_width(width, n) + 16 == 40 + (i + 1) * (png_card_width(width, n) + 16),
        40 + (n - 1) * (png_card_width(width, n) + 16) + png_card_width(width, n) <= width - 40,
{
    let cw = png_card_width(width, n);
    let free = width - 80 - (n - 1) * 16;
    assert(cw == free / n);
    assert(cw >= 0 && cw * n <= free) by (nonlinear_arith)
        requires
            cw == free / n,
            n >= 1,
            free >= 0;
    assert((n - 1) * (cw + 16) + cw == cw * n + (n - 1) * 16) by (nonlinear_arith);
    assert(i * (cw + 16) + cw + 16 == (i + 1) * (cw + 16)) by (nonlinear_arith);
}

/// The steps of the first `k` metric cards are four per card, the card's
/// fill, its value, its upper-cased label and its icon.
proof fn lemma_metric_ops_at(ms: Seq<MetricView>, k: nat, cw: int, card: Rgb, acc: Rgb, acc2: Rgb, i: int)
    requires
        0 <= i < k,
    ensures
        metric_ops(ms, k, cw, card, acc, acc2).len() == 4 * k,
        metric_ops(ms, k, cw, card, acc, acc2)[4 * i + 1] matches OpView::Text { size, text, y10, .. } && size == 24
            && y10 == 1720 && text == ms[i].value,
        metric_ops(ms, k, cw, card, acc, acc2)[4 * i + 2] matches OpView::Text { size, text, y10, .. } && size == 11
            && y10 == 1940 && text == uppercase(ms[i].label),
    decreases k,
{
    if i < k - 1 {
        lemma_metric_ops_at(ms, (k - 1) as nat, cw, card, acc, acc2, i);
    } else if k > 1 {
        lemma_metric_ops_at(ms, (k - 1) as nat, cw, card, acc, acc2, 0);
    } else {
        assert(metric_ops(ms, 0, cw, card, acc, acc2).len() == 0);
    }
}

/// In the drawing list, metric card `i` shows the metric's value as its
/// large (24 pt) text and its upper-cased label as the small (11 pt)
/// caption below it: these are the card's second and third steps, after
/// the accent bar, the title and the subtitle (when there is one) and the
/// four steps of each card before it.
pub proof fn lemma_png_metric_texts(s: LayoutSpecView, has_chart: bool, i: int)
    requires
        0 <= i < s.metrics.len(),
        png_card_width(dims(s.aspect_ratio).0, s.metrics.len() as int) != 0,
    ensures
        ({
            let h = if s.subtitle is Some { 3int } else { 2int };
            &&& png_ops(s, has_chart)[h + 4 * i + 1] matches OpView::Text { size, text, y10, .. } && size == 24
                && y10 == 1720 && text == s.metrics[i].value
            &&& png_ops(s, has_chart)[h + 4 * i + 2] matches OpView::Text { size, text, y10, .. } && size == 11
                && y10 == 1940 && text == uppercase(s.metrics[i].label)
        }),
{
    let (width, height) = dims(s.aspect_ratio);
    let c = theme_colors(s.theme);
    let cw = png_card_width(width, s.metrics.len() as int);
    lemma_metric_ops_at(s.metrics, s.metrics.len(), cw, hex_rgb(c.1), hex_rgb(c.2), hex_rgb(c.3), i);
}

} // verus!
