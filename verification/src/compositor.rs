//! Region-based composition: a layout's regions, resolved to pixel
//! rectangles, each bind one slot (title, subtitle, metrics, sections, chart,
//! footer) and the SVG is composed from that geometry.
//!
//! Composition runs in two steps. `fit_requests` lists, in document order,
//! every text that must be cut to a pixel budget (the measuring itself needs
//! font metrics); `render_svg_regions` then takes the cut texts back and
//! composes the document.

use crate::data_binding::string_views;
use crate::font::{font_stack, font_stack_text, font_style_block, font_style_text, needs_thai, text_needs_thai};

use crate::icon::{icon_group, IconRenderer};
use crate::router::{theme_colors, dims, InfographicLayoutSpec, LayoutSpecView, MetricView, SectionView};
use crate::strutil::{dec, lowercase, push_char, push_dec, push_str, str_chars, to_uppercase, uppercase};
use vstd::prelude::*;
use vstd::string::*;

verus! {

/// Slot kinds a region can bind.
#[derive(Debug, Clone, Copy, PartialEq, Eq, Structural)]
pub enum Slot {
    Title,
    Subtitle,
    Metrics,
    Sections,
    Chart,
    Footer,
}

/// A resolved pixel rectangle for one region.
#[derive(Debug, Clone, Copy)]
pub struct RegionRect {
    pub slot: Slot,
    pub x: u32,
    pub y: u32,
    pub w: u32,
    pub h: u32,
}

/// The slot a region's slot name binds; unknown names bind the sections.
pub open spec fn slot_named(s: Seq<char>) -> Slot {
    if s == "title"@ {
        Slot::Title
    } else if s == "subtitle"@ {
        Slot::Subtitle
    } else if s == "metrics"@ {
        Slot::Metrics
    } else if s == "sections"@ {
        Slot::Sections
    } else if s == "chart"@ {
        Slot::Chart
    } else if s == "footer"@ {
        Slot::Footer
    } else {
        Slot::Sections
    }
}

/// Whether `s` and `t` hold the same characters.
fn same_text(s: &str, t: &str) -> (r: bool)
    ensures
        r == (s@ == t@),
{
    let a = str_chars(s);
    let b = str_chars(t);
    if a.len() != b.len() {
        return false;
    }
    let mut i: usize = 0;
    while i < a.len()
        invariant
            i <= a.len(),
            a.len() == b.len(),
            a@ == s@,
            b@ == t@,
            forall|k: int| 0 <= k < i ==> a@[k] == b@[k],
        decreases a.len() - i,
    {
        if a[i] != b[i] {
            return false;
        }
        i = i + 1;
    }
    assert(a@ =~= b@);
    true
}

/// The slot that a region's slot name binds.
pub fn slot_of(s: &str) -> (r: Slot)
    ensures
        r == slot_named(s@),
{
    proof {
        reveal_strlit("title");
        reveal_strlit("subtitle");
        reveal_strlit("metrics");
        reveal_strlit("sections");
        reveal_strlit("chart");
        reveal_strlit("footer");
    }
    if same_text(s, "title") {
        Slot::Title
    } else if same_text(s, "subtitle") {
        Slot::Subtitle
    } else if same_text(s, "metrics") {
        Slot::Metrics
    } else if same_text(s, "sections") {
        Slot::Sections
    } else if same_text(s, "chart") {
        Slot::Chart
    } else if same_text(s, "footer") {
        Slot::Footer
    } else {
        Slot::Sections
    }
}

/// The first region bound to `slot`.
pub open spec fn first_rect(rs: Seq<RegionRect>, slot: Slot) -> Option<RegionRect>
    decreases rs.len(),
{
    if rs.len() == 0 {
        None
    } else if rs[0].slot == slot {
        Some(rs[0])
    } else {
        first_rect(rs.drop_first(), slot)
    }
}

/// The first region bound to `slot`, if any.
pub fn rect_for(regions: &[RegionRect], slot: Slot) -> (r: Option<RegionRect>)
    ensures
        r == first_rect(regions@, slot),
{
    let mut i: usize = 0;
    assert(regions@.skip(0) == regions@);
    while i < regions.len()
        invariant
            i <= regions.len(),
            first_rect(regions@, slot) == first_rect(regions@.skip(i as int), slot),
        decreases regions.len() - i,
    {
        assert(regions@.skip(i as int)[0] == regions@[i as int]);
        assert(regions@.skip(i as int).drop_first() == regions@.skip(i + 1));
        if regions[i].slot == slot {
            return Some(regions[i]);
        }
        i = i + 1;
    }
    None
}

/// SVG text escape of one character: `&`, `<`, `>` become entity references.
pub open spec fn svg_escape_char(c: char) -> Seq<char> {
    if c == '&' {
        "&amp;"@
    } else if c == '<' {
        "&lt;"@
    } else if c == '>' {
        "&gt;"@
    } else {
        seq![c]
    }
}

/// SVG text escape of a text.
pub open spec fn svg_escape(s: Seq<char>) -> Seq<char>
    decreases s.len(),
{
    if s.len() == 0 {
        seq![]
    } else {
        svg_escape(s.drop_last()) + svg_escape_char(s.last())
    }
}

/// Appends the SVG escape of `input` to `out`.
pub(crate) fn push_escaped_svg(out: &mut String, input: &str)
    ensures
        final(out)@ == old(out)@ + svg_escape(input@),
{
    let ghost start = out@;
    for c in it: input.chars()
        invariant
            it.seq() == input@,
            out@ == start + svg_escape(input@.take(it.index() as int)),
    {
        let ghost i = it.index() as int;
        assert(input@.take(i + 1).drop_last() == input@.take(i));
        if c == '&' {
            push_str(out, "&amp;");
        } else if c == '<' {
            push_str(out, "&lt;");
        } else if c == '>' {
            push_str(out, "&gt;");
        } else {
            push_char(out, c);
        }
    }
    assert(input@.take(input@.len() as int) == input@);
}

/// Escapes `&`, `<` and `>` for SVG text.
pub fn escape_svg(s: &str) -> (r: String)
    ensures
        r@ == svg_escape(s@),
{
    let mut r = String::new();
    push_escaped_svg(&mut r, s);
    r
}

/// `a - b`, or 0 when `b` exceeds `a`.
pub open spec fn sat_sub(a: int, b: int) -> int {
    if a >= b {
        a - b
    } else {
        0
    }
}

/// A text to be cut to a pixel budget at a font size (both in pixels).
pub struct TextFit {
    pub text: String,
    pub size: u32,
    pub budget: u32,
}

/// A text to be cut, by its characters.
pub open spec fn fit_view(f: TextFit) -> (Seq<char>, int, int) {
    (f.text@, f.size as int, f.budget as int)
}

/// The texts of a list of requests, by their characters.
pub open spec fn fit_views(fs: Seq<TextFit>) -> Seq<(Seq<char>, int, int)> {
    fs.map_values(|f: TextFit| fit_view(f))
}

/// The title's request, when a title region exists.
pub open spec fn title_fits(rs: Seq<RegionRect>, s: LayoutSpecView) -> Seq<(Seq<char>, int, int)> {
    match first_rect(rs, Slot::Title) {
        Some(r) => seq![(s.title, 26, sat_sub(r.w as int, 16))],
        None => seq![],
    }
}

/// The subtitle's request, when a subtitle region and a subtitle exist.
pub open spec fn subtitle_fits(rs: Seq<RegionRect>, s: LayoutSpecView) -> Seq<(Seq<char>, int, int)> {
    match (first_rect(rs, Slot::Subtitle), s.subtitle) {
        (Some(r), Some(t)) => seq![(t, 14, sat_sub(r.w as int, 8))],
        _ => seq![],
    }
}

/// Title then description request of each section, at a shared budget.
pub open spec fn section_pairs(ss: Seq<SectionView>, budget: int) -> Seq<(Seq<char>, int, int)>
    decreases ss.len(),
{
    if ss.len() == 0 {
        seq![]
    } else {
        section_pairs(ss.drop_last(), budget) + seq![(ss.last().title, 15, budget), (ss.last().description, 11, budget)]
    }
}

/// The sections' requests, when a sections region exists.
pub open spec fn section_fits(rs: Seq<RegionRect>, s: LayoutSpecView) -> Seq<(Seq<char>, int, int)> {
    match first_rect(rs, Slot::Sections) {
        Some(r) => section_pairs(s.sections, sat_sub(r.w as int, 56)),
        None => seq![],
    }
}

/// The footer's request, when a footer region and a footer note exist.
pub open spec fn footer_fits(rs: Seq<RegionRect>, s: LayoutSpecView) -> Seq<(Seq<char>, int, int)> {
    match (first_rect(rs, Slot::Footer), s.footer_note) {
        (Some(r), Some(f)) => seq![(f, 11, r.w as int)],
        _ => seq![],
    }
}

/// Every text the composition cuts to a budget, in document order.
pub open spec fn fit_plan(rs: Seq<RegionRect>, s: LayoutSpecView) -> Seq<(Seq<char>, int, int)> {
    title_fits(rs, s) + subtitle_fits(rs, s) + section_fits(rs, s) + footer_fits(rs, s)
}

proof fn lemma_section_pairs_len(ss: Seq<SectionView>, budget: int)
    ensures
        section_pairs(ss, budget).len() == 2 * ss.len(),
    decreases ss.len(),
{
    if ss.len() > 0 {
        lemma_section_pairs_len(ss.drop_last(), budget);
    }
}

/// The texts the composition of `spec` over `regions` cuts to a pixel
/// budget, in document order: title, subtitle, each section's title and
/// description, footer.
pub fn fit_requests(regions: &[RegionRect], spec: &InfographicLayoutSpec) -> (r: Vec<TextFit>)
    ensures
        fit_views(r@) == fit_plan(regions@, spec@),
{
    let ghost sv = spec@;
    let mut out: Vec<TextFit> = Vec::new();
    if let Some(r) = rect_for(regions, Slot::Title) {
        out.push(TextFit { text: spec.title.clone(), size: 26, budget: r.w.saturating_sub(16) });
    }
    assert(fit_views(out@) =~= title_fits(regions@, sv));
    let ghost a = fit_views(out@);
    if let Some(r) = rect_for(regions, Slot::Subtitle) {
        if let Some(sub) = &spec.subtitle {
            out.push(TextFit { text: sub.clone(), size: 14, budget: r.w.saturating_sub(8) });
        }
    }
    assert(fit_views(out@) =~= a + subtitle_fits(regions@, sv));
    let ghost b = fit_views(out@);
    if let Some(r) = rect_for(regions, Slot::Sections) {
        let budget = r.w.saturating_sub(56);
        let mut i: usize = 0;
        while i < spec.sections.len()
            invariant
                i <= spec.sections.len(),
                sv == spec@,
                budget as int == sat_sub(r.w as int, 56),
                fit_views(out@) == b + section_pairs(sv.sections.take(i as int), budget as int),
            decreases spec.sections.len() - i,
        {
            let s = &spec.sections[i];
            assert(sv.sections.take(i + 1).drop_last() == sv.sections.take(i as int));
            assert(sv.sections[i as int] == s@);
            let ghost before = fit_views(out@);
            let t1 = TextFit { text: s.title.clone(), size: 15, budget };
            let t2 = TextFit { text: s.description.clone(), size: 11, budget };
            out.push(t1);
            out.push(t2);
            assert(fit_views(out@) =~= before.push(fit_view(t1)).push(fit_view(t2)));
            assert(section_pairs(sv.sections.take(i + 1), budget as int) == section_pairs(sv.sections.take(i as int), budget as int)
                + seq![(s@.title, 15int, budget as int), (s@.description, 11int, budget as int)]);
            assert(fit_views(out@) =~= b + section_pairs(sv.sections.take(i + 1), budget as int));
            i = i + 1;
        }
        assert(sv.sections.take(spec.sections.len() as int) == sv.sections);
    }
    assert(fit_views(out@) =~= b + section_fits(regions@, sv));
    let ghost c = fit_views(out@);
    if let Some(r) = rect_for(regions, Slot::Footer) {
        if let Some(f) = &spec.footer_note {
            out.push(TextFit { text: f.clone(), size: 11, budget: r.w });
        }
    }
    assert(fit_views(out@) =~= c + footer_fits(regions@, sv));
    out
}


/// The document head: the `<svg>` element, fonts, classes and background.
pub open spec fn regions_head(w: nat, h: nat, c: (Seq<char>, Seq<char>, Seq<char>, Seq<char>, Seq<char>), thai: bool, inter_b64: Seq<char>, thai_b64: Seq<char>) -> Seq<char> {
    "<svg xmlns=\"http://www.w3.org/2000/svg\" viewBox=\"0 0 "@ + dec(w) + " "@ + dec(h) + "\" width=\""@ + dec(w)
        + "\" height=\""@ + dec(h) + "\">\n"@
        + "<defs>\n  <style>\n"@
        + font_style_text(thai, inter_b64, thai_b64)
        + "    text { font-family: "@ + font_stack_text(thai) + "; }\n"@
        + "    .title { font-size: 26px; font-weight: 800; fill: "@ + c.4 + "; }\n"@
        + "    .subtitle { font-size: 14px; font-weight: 400; fill: #9CA3AF; }\n"@
        + "    .card-title { font-size: 15px; font-weight: 600; fill: "@ + c.4 + "; }\n"@
        + "    .card-desc { font-size: 11px; font-weight: 400; fill: #9CA3AF; }\n"@
        + "    .metric-val { font-size: 22px; font-weight: 800; fill: "@ + c.2 + "; }\n"@
        + "    .metric-lbl { font-size: 10px; font-weight: 600; fill: #9CA3AF; letter-spacing: 0.5px; }\n"@
        + "    .badge { font-size: 11px; font-weight: 800; fill: "@ + c.0 + "; }\n"@
        + "  </style>\n"@
        + "  <linearGradient id=\"bg-grad\" x1=\"0%\" y1=\"0%\" x2=\"100%\" y2=\"100%\">\n    <stop offset=\"0%\" stop-color=\""@
        + c.0 + "\" />\n    <stop offset=\"100%\" stop-color=\""@ + c.1 + "\" />\n  </linearGradient>\n</defs>\n"@
        + "<rect width=\"100%\" height=\"100%\" fill=\"url(#bg-grad)\" />\n"@
}

#[verifier::spinoff_prover]
#[verifier::rlimit(80)]
fn push_regions_head(out: &mut String, w: u32, h: u32, c: (&str, &str, &str, &str, &str), thai: bool, inter_b64: &str, thai_b64: &str)
    ensures
        final(out)@ == old(out)@ + regions_head(w as nat, h as nat, (c.0@, c.1@, c.2@, c.3@, c.4@), thai, inter_b64@, thai_b64@),
{
    let ghost start = out@;
    push_str(out, "<svg xmlns=\"http://www.w3.org/2000/svg\" viewBox=\"0 0 ");
    push_dec(out, w as u64);
    push_str(out, " ");
    push_dec(out, h as u64);
    push_str(out, "\" width=\"");
    push_dec(out, w as u64);
    push_str(out, "\" height=\"");
    push_dec(out, h as u64);
    push_str(out, "\">\n");
    push_str(out, "<defs>\n  <style>\n");
    let fonts = font_style_block(thai, inter_b64, thai_b64);
    push_str(out, fonts.as_str());
    push_str(out, "    text { font-family: ");
    let stack = font_stack(thai);
    push_str(out, stack.as_str());
    push_str(out, "; }\n");
    push_str(out, "    .title { font-size: 26px; font-weight: 800; fill: ");
    push_str(out, c.4);
    push_str(out, "; }\n");
    push_str(out, "    .subtitle { font-size: 14px; font-weight: 400; fill: #9CA3AF; }\n");
    push_str(out, "    .card-title { font-size: 15px; font-weight: 600; fill: ");
    push_str(out, c.4);
    push_str(out, "; }\n");
    push_str(out, "    .card-desc { font-size: 11px; font-weight: 400; fill: #9CA3AF; }\n");
    push_str(out, "    .metric-val { font-size: 22px; font-weight: 800; fill: ");
    push_str(out, c.2);
    push_str(out, "; }\n");
    push_str(out, "    .metric-lbl { font-size: 10px; font-weight: 600; fill: #9CA3AF; letter-spacing: 0.5px; }\n");
    push_str(out, "    .badge { font-size: 11px; font-weight: 800; fill: ");
    push_str(out, c.0);
    push_str(out, "; }\n");
    push_str(out, "  </style>\n");
    push_str(out, "  <linearGradient id=\"bg-grad\" x1=\"0%\" y1=\"0%\" x2=\"100%\" y2=\"100%\">\n    <stop offset=\"0%\" stop-color=\"");
    push_str(out, c.0);
    push_str(out, "\" />\n    <stop offset=\"100%\" stop-color=\"");
    push_str(out, c.1);
    push_str(out, "\" />\n  </linearGradient>\n</defs>\n");
    push_str(out, "<rect width=\"100%\" height=\"100%\" fill=\"url(#bg-grad)\" />\n");
    assert(out@ =~= start + regions_head(w as nat, h as nat, (c.0@, c.1@, c.2@, c.3@, c.4@), thai, inter_b64@, thai_b64@));
}

/// The title block in region `r`.
pub open spec fn title_block(r: RegionRect, accent1: Seq<char>, t: Seq<char>) -> Seq<char> {
    "<g transform=\"translate("@ + dec(r.x as nat) + ", "@ + dec(r.y as nat)
        + ")\">\n  <rect x=\"0\" y=\"0\" width=\"8\" height=\"40\" rx=\"4\" fill=\""@ + accent1
        + "\" />\n  <text x=\"20\" y=\"28\" class=\"title\">"@ + svg_escape(t) + "</text>\n</g>\n"@
}

fn push_title_block(out: &mut String, r: RegionRect, accent1: &str, t: &str)
    ensures
        final(out)@ == old(out)@ + title_block(r, accent1@, t@),
{
    let ghost start = out@;
    push_str(out, "<g transform=\"translate(");
    push_dec(out, r.x as u64);
    push_str(out, ", ");
    push_dec(out, r.y as u64);
    push_str(out, ")\">\n  <rect x=\"0\" y=\"0\" width=\"8\" height=\"40\" rx=\"4\" fill=\"");
    push_str(out, accent1);
    push_str(out, "\" />\n  <text x=\"20\" y=\"28\" class=\"title\">");
    push_escaped_svg(out, t);
    push_str(out, "</text>\n</g>\n");
    assert(out@ =~= start + title_block(r, accent1@, t@));
}

/// The subtitle line in region `r`.
pub open spec fn subtitle_block(r: RegionRect, t: Seq<char>) -> Seq<char> {
    "<text x=\""@ + dec(r.x as nat) + "\" y=\""@ + dec((r.y + 18) as nat) + "\" class=\"subtitle\">"@ + svg_escape(t)
        + "</text>\n"@
}

fn push_subtitle_block(out: &mut String, r: RegionRect, t: &str)
    requires
        r.y + 18 <= u32::MAX,
    ensures
        final(out)@ == old(out)@ + subtitle_block(r, t@),
{
    let ghost start = out@;
    push_str(out, "<text x=\"");
    push_dec(out, r.x as u64);
    push_str(out, "\" y=\"");
    push_dec(out, (r.y + 18) as u64);
    push_str(out, "\" class=\"subtitle\">");
    push_escaped_svg(out, t);
    push_str(out, "</text>\n");
    assert(out@ =~= start + subtitle_block(r, t@));
}

/// One metric card at `(x, y)`, `cw` wide and `h` high, with its icon group.
pub open spec fn metric_block(x: nat, y: nat, cw: nat, h: nat, card_bg: Seq<char>, value: Seq<char>, label: Seq<char>, icon_x: nat, icon: Seq<char>) -> Seq<char> {
    "<g transform=\"translate("@ + dec(x) + ", "@ + dec(y) + ")\">\n  <rect width=\""@ + dec(cw) + "\" height=\""@ + dec(h)
        + "\" rx=\"10\" fill=\""@ + card_bg + "\" stroke=\"#1F2937\" stroke-width=\"1\" />\n  <text x=\"12\" y=\"26\" class=\"metric-val\">"@
        + svg_escape(value) + "</text>\n  <text x=\"12\" y=\"44\" class=\"metric-lbl\">"@ + svg_escape(label)
        + "</text>\n  <g transform=\"translate("@ + dec(icon_x) + ", 8)\">"@ + icon + "</g>\n</g>\n"@
}

#[verifier::spinoff_prover]
#[verifier::rlimit(80)]
fn push_metric_block(out: &mut String, x: u32, y: u32, cw: u32, h: u32, card_bg: &str, value: &str, label: &str, icon_x: u32, icon: &str)
    ensures
        final(out)@ == old(out)@ + metric_block(x as nat, y as nat, cw as nat, h as nat, card_bg@, value@, label@, icon_x as nat, icon@),
{
    let ghost start = out@;
    push_str(out, "<g transform=\"translate(");
    push_dec(out, x as u64);
    push_str(out, ", ");
    push_dec(out, y as u64);
    push_str(out, ")\">\n  <rect width=\"");
    push_dec(out, cw as u64);
    push_str(out, "\" height=\"");
    push_dec(out, h as u64);
    push_str(out, "\" rx=\"10\" fill=\"");
    push_str(out, card_bg);
    push_str(out, "\" stroke=\"#1F2937\" stroke-width=\"1\" />\n  <text x=\"12\" y=\"26\" class=\"metric-val\">");
    push_escaped_svg(out, value);
    push_str(out, "</text>\n  <text x=\"12\" y=\"44\" class=\"metric-lbl\">");
    push_escaped_svg(out, label);
    push_str(out, "</text>\n  <g transform=\"translate(");
    push_dec(out, icon_x as u64);
    push_str(out, ", 8)\">");
    push_str(out, icon);
    push_str(out, "</g>\n</g>\n");
    assert(out@ =~= start + metric_block(x as nat, y as nat, cw as nat, h as nat, card_bg@, value@, label@, icon_x as nat, icon@));
}

/// The path pieces the glyph table holds for the lower-case form of `name`.
pub open spec fn icon_paths(table: Map<Seq<char>, Seq<Seq<char>>>, name: Seq<char>) -> Seq<Seq<char>> {
    if table.dom().contains(lowercase(name)) {
        table[lowercase(name)]
    } else {
        seq![]
    }
}

/// Width of each of `n` metric cards sharing a band `w` wide, 10 px apart.
pub open spec fn card_width(w: int, n: int) -> int {
    sat_sub(w, (n - 1) * 10) / n
}

/// The first `k` metric cards of the band in region `r`.
pub open spec fn metric_cards(r: RegionRect, ms: Seq<MetricView>, k: nat, cw: nat, card_bg: Seq<char>, accent2: Seq<char>, table: Map<Seq<char>, Seq<Seq<char>>>) -> Seq<char>
    decreases k,
{
    if k == 0 {
        seq![]
    } else {
        let i = (k - 1) as nat;
        metric_cards(r, ms, i, cw, card_bg, accent2, table)
            + metric_block((r.x + i * (cw + 10)) as nat, r.y as nat, cw, r.h as nat, card_bg, ms[i as int].value,
                uppercase(ms[i as int].label), sat_sub(cw as int, 26) as nat, icon_group(accent2, icon_paths(table, ms[i as int].icon)))
    }
}

/// The metrics band, when a metrics region exists and there are metrics.
pub open spec fn metrics_part(rs: Seq<RegionRect>, s: LayoutSpecView, c: (Seq<char>, Seq<char>, Seq<char>, Seq<char>, Seq<char>), table: Map<Seq<char>, Seq<Seq<char>>>) -> Seq<char> {
    match first_rect(rs, Slot::Metrics) {
        Some(r) => if s.metrics.len() > 0 {
            metric_cards(r, s.metrics, s.metrics.len(), card_width(r.w as int, s.metrics.len() as int) as nat, c.1, c.3, table)
        } else {
            seq![]
        },
        None => seq![],
    }
}

/// The chart fragment, when a chart region and a chart exist.
pub open spec fn chart_part(rs: Seq<RegionRect>, chart: Option<Seq<char>>) -> Seq<char> {
    match (first_rect(rs, Slot::Chart), chart) {
        (Some(_), Some(svg)) => svg,
        _ => seq![],
    }
}

/// Height of each of `n` section cards (at least one) sharing a region `h`
/// high, 8 px apart.
pub open spec fn section_height(h: int, n: int) -> int {
    let m = if n > 1 { n } else { 1 };
    sat_sub(h, (m - 1) * 8) / m
}

/// One section card at `(x, y)`, its title and description SVG-escaped.
pub open spec fn section_block(x: nat, y: nat, w: nat, sh: nat, card_bg: Seq<char>, accent1: Seq<char>, step: nat, title: Seq<char>, desc: Seq<char>) -> Seq<char> {
    "<g transform=\"translate("@ + dec(x) + ", "@ + dec(y) + ")\">\n  <rect width=\""@ + dec(w) + "\" height=\""@ + dec(sh)
        + "\" rx=\"10\" fill=\""@ + card_bg + "\" stroke=\"#1F2937\" stroke-width=\"1\" />\n  <circle cx=\"22\" cy=\""@
        + dec(sh / 2) + "\" r=\"12\" fill=\""@ + accent1 + "\" />\n  <text x=\"22\" y=\""@ + dec(sh / 2 + 4)
        + "\" text-anchor=\"middle\" class=\"badge\">"@ + dec(step) + "</text>\n  <text x=\"44\" y=\"22\" class=\"card-title\">"@
        + svg_escape(title) + "</text>\n  <text x=\"44\" y=\"40\" class=\"card-desc\">"@ + svg_escape(desc) + "</text>\n</g>\n"@
}

#[verifier::spinoff_prover]
#[verifier::rlimit(80)]
fn push_section_block(out: &mut String, x: u32, y: u32, w: u32, sh: u32, card_bg: &str, accent1: &str, step: usize, title: &str, desc: &str)
    ensures
        final(out)@ == old(out)@ + section_block(x as nat, y as nat, w as nat, sh as nat, card_bg@, accent1@, step as nat, title@, desc@),
{
    let ghost start = out@;
    push_str(out, "<g transform=\"translate(");
    push_dec(out, x as u64);
    push_str(out, ", ");
    push_dec(out, y as u64);
    push_str(out, ")\">\n  <rect width=\"");
    push_dec(out, w as u64);
    push_str(out, "\" height=\"");
    push_dec(out, sh as u64);
    push_str(out, "\" rx=\"10\" fill=\"");
    push_str(out, card_bg);
    push_str(out, "\" stroke=\"#1F2937\" stroke-width=\"1\" />\n  <circle cx=\"22\" cy=\"");
    push_dec(out, (sh / 2) as u64);
    push_str(out, "\" r=\"12\" fill=\"");
    push_str(out, accent1);
    push_str(out, "\" />\n  <text x=\"22\" y=\"");
    push_dec(out, (sh / 2 + 4) as u64);
    push_str(out, "\" text-anchor=\"middle\" class=\"badge\">");
    push_dec(out, step as u64);
    push_str(out, "</text>\n  <text x=\"44\" y=\"22\" class=\"card-title\">");
    push_escaped_svg(out, title);
    push_str(out, "</text>\n  <text x=\"44\" y=\"40\" class=\"card-desc\">");
    push_escaped_svg(out, desc);
    push_str(out, "</text>\n</g>\n");
    assert(out@ =~= start + section_block(x as nat, y as nat, w as nat, sh as nat, card_bg@, accent1@, step as nat, title@, desc@));
}

/// The first `k` section cards in region `r`, with the cut texts `fitted`
/// (title and description of each section, in turn).
pub open spec fn section_cards(r: RegionRect, ss: Seq<SectionView>, k: nat, sh: nat, card_bg: Seq<char>, accent1: Seq<char>, fitted: Seq<Seq<char>>) -> Seq<char>
    decreases k,
{
    if k == 0 {
        seq![]
    } else {
        let i = (k - 1) as nat;
        section_cards(r, ss, i, sh, card_bg, accent1, fitted)
            + section_block(r.x as nat, (r.y + i * (sh + 8)) as nat, r.w as nat, sh, card_bg, accent1, ss[i as int].step_number,
                fitted[2 * i as int], fitted[2 * i as int + 1])
    }
}

/// The section cards, when a sections region exists.
pub open spec fn sections_part(rs: Seq<RegionRect>, s: LayoutSpecView, c: (Seq<char>, Seq<char>, Seq<char>, Seq<char>, Seq<char>), fitted: Seq<Seq<char>>) -> Seq<char> {
    match first_rect(rs, Slot::Sections) {
        Some(r) => section_cards(r, s.sections, s.sections.len(), section_height(r.h as int, s.sections.len() as int) as nat, c.1, c.2, fitted),
        None => seq![],
    }
}

/// The footer line in region `r`.
pub open spec fn footer_block(r: RegionRect, t: Seq<char>) -> Seq<char> {
    "<text x=\""@ + dec((r.x + r.w / 2) as nat) + "\" y=\""@ + dec((r.y + r.h / 2) as nat)
        + "\" text-anchor=\"middle\" font-size=\"11\" fill=\"#6B7280\">"@ + svg_escape(t) + "</text>\n"@
}

fn push_footer_block(out: &mut String, r: RegionRect, t: &str)
    requires
        r.x + r.w / 2 <= u32::MAX,
        r.y + r.h / 2 <= u32::MAX,
    ensures
        final(out)@ == old(out)@ + footer_block(r, t@),
{
    let ghost start = out@;
    push_str(out, "<text x=\"");
    push_dec(out, (r.x + r.w / 2) as u64);
    push_str(out, "\" y=\"");
    push_dec(out, (r.y + r.h / 2) as u64);
    push_str(out, "\" text-anchor=\"middle\" font-size=\"11\" fill=\"#6B7280\">");
    push_escaped_svg(out, t);
    push_str(out, "</text>\n");
    assert(out@ =~= start + footer_block(r, t@));
}

/// The composed document, given the cut texts `fitted` (in the order of
/// `fit_plan`), the glyph table, and the chart fragment.
pub open spec fn regions_document(rs: Seq<RegionRect>, s: LayoutSpecView, fitted: Seq<Seq<char>>, table: Map<Seq<char>, Seq<Seq<char>>>, chart: Option<Seq<char>>, inter_b64: Seq<char>, thai_b64: Seq<char>) -> Seq<char> {
    let c = theme_colors(s.theme);
    let nt = title_fits(rs, s).len() as int;
    let nsub = subtitle_fits(rs, s).len() as int;
    let nsec = section_fits(rs, s).len() as int;
    regions_head(dims(s.aspect_ratio).0 as nat, dims(s.aspect_ratio).1 as nat, c, text_needs_thai(s), inter_b64, thai_b64)
        + (match first_rect(rs, Slot::Title) {
            Some(r) => title_block(r, c.2, fitted[0]),
            None => seq![],
        })
        + (match (first_rect(rs, Slot::Subtitle), s.subtitle) {
            (Some(r), Some(_)) => subtitle_block(r, fitted[nt]),
            _ => seq![],
        })
        + metrics_part(rs, s, c, table)
        + chart_part(rs, chart)
        + sections_part(rs, s, c, fitted.skip(nt + nsub))
        + (match (first_rect(rs, Slot::Footer), s.footer_note) {
            (Some(r), Some(_)) => footer_block(r, fitted[nt + nsub + nsec]),
            _ => seq![],
        })
        + "</svg>"@
}

/// The coordinates the composition computes fit in `u32`.
pub open spec fn composable(rs: Seq<RegionRect>, s: LayoutSpecView) -> bool {
    &&& (match (first_rect(rs, Slot::Subtitle), s.subtitle) {
        (Some(r), Some(_)) => r.y + 18 <= u32::MAX,
        _ => true,
    })
    &&& (match first_rect(rs, Slot::Metrics) {
        Some(r) => s.metrics.len() == 0 || {
            let n = s.metrics.len() as int;
            let cw = card_width(r.w as int, n);
            &&& n <= u32::MAX
            &&& (n - 1) * 10 <= u32::MAX
            &&& cw + 10 <= u32::MAX
            &&& r.x + (n - 1) * (cw + 10) <= u32::MAX
        },
        None => true,
    })
    &&& (match first_rect(rs, Slot::Sections) {
        Some(r) => {
            let n = s.sections.len() as int;
            let sh = section_height(r.h as int, n);
            &&& n <= u32::MAX
            &&& (n - 1) * 8 <= u32::MAX
            &&& (n == 0 || (sh + 8 <= u32::MAX && r.y + (n - 1) * (sh + 8) <= u32::MAX))
        },
        None => true,
    })
    &&& (match (first_rect(rs, Slot::Footer), s.footer_note) {
        (Some(r), Some(_)) => r.x + r.w / 2 <= u32::MAX && r.y + r.h / 2 <= u32::MAX,
        _ => true,
    })
}


fn push_metrics_band(out: &mut String, r: RegionRect, spec: &InfographicLayoutSpec, card_bg: &str, accent2: &str, icons: &IconRenderer)
    requires
        icons.wf(),
        spec.metrics.len() > 0,
        spec.metrics.len() <= u32::MAX,
        (spec.metrics.len() - 1) * 10 <= u32::MAX,
        card_width(r.w as int, spec.metrics.len() as int) + 10 <= u32::MAX,
        r.x + (spec.metrics.len() - 1) * (card_width(r.w as int, spec.metrics.len() as int) + 10) <= u32::MAX,
    ensures
        final(out)@ == old(out)@ + metric_cards(r, spec@.metrics, spec@.metrics.len(),
            card_width(r.w as int, spec.metrics.len() as int) as nat, card_bg@, accent2@, icons.table()),
{
    let ghost sv = spec@;
    let n = spec.metrics.len() as u32;
    let gap: u32 = 10;
    let card_w = r.w.saturating_sub((n - 1) * gap) / n;
    assert(card_w as int == card_width(r.w as int, n as int));
    let ghost start = out@;
    let mut i: usize = 0;
    while i < spec.metrics.len()
        invariant
            i <= spec.metrics.len(),
            n as int == spec.metrics.len(),
            sv == spec@,
            icons.wf(),
            card_w as int == card_width(r.w as int, n as int),
            gap == 10,
            card_w + 10 <= u32::MAX,
            r.x + (n - 1) * (card_w + 10) <= u32::MAX,
            out@ == start + metric_cards(r, sv.metrics, i as nat, card_w as nat, card_bg@, accent2@, icons.table()),
        decreases spec.metrics.len() - i,
    {
        let m = &spec.metrics[i];
        assert((i as int) * (card_w + 10) <= (n - 1) * (card_w + 10)) by (nonlinear_arith)
            requires
                (i as int) < n,
                card_w >= 0;
        let x = r.x + (i as u32) * (card_w + gap);
        let icon_svg = icons.render(m.icon.as_str(), accent2);
        let label_up = to_uppercase(m.label.as_str());
        push_metric_block(out, x, r.y, card_w, r.h, card_bg, m.value.as_str(), label_up.as_str(), card_w.saturating_sub(26), icon_svg.as_str());
        assert(sv.metrics[i as int] == m@);
        i = i + 1;
    }
}

fn push_section_cards(out: &mut String, r: RegionRect, spec: &InfographicLayoutSpec, card_bg: &str, accent1: &str, fitted: &[String], base: usize)
    requires
        spec.sections.len() <= u32::MAX,
        (spec.sections.len() - 1) * 8 <= u32::MAX,
        spec.sections.len() == 0 || (section_height(r.h as int, spec.sections.len() as int) + 8 <= u32::MAX
            && r.y + (spec.sections.len() - 1) * (section_height(r.h as int, spec.sections.len() as int) + 8) <= u32::MAX),
        base + 2 * spec.sections.len() <= fitted.len(),
    ensures
        final(out)@ == old(out)@ + section_cards(r, spec@.sections, spec@.sections.len(),
            section_height(r.h as int, spec.sections.len() as int) as nat, card_bg@, accent1@, string_views(fitted@).skip(base as int)),
{
    let ghost sv = spec@;
    let ghost fv = string_views(fitted@).skip(base as int);
    let len = spec.sections.len();
    let n: u32 = if len > 1 { len as u32 } else { 1 };
    let gap: u32 = 8;
    let sec_h = r.h.saturating_sub((n - 1) * gap) / n;
    assert(sec_h as int == section_height(r.h as int, len as int));
    let ghost start = out@;
    let mut i: usize = 0;
    while i < len
        invariant
            i <= len,
            len == spec.sections.len(),
            sv == spec@,
            fv == string_views(fitted@).skip(base as int),
            base + 2 * len <= fitted.len(),
            sec_h as int == section_height(r.h as int, len as int),
            gap == 8,
            len == 0 || (sec_h + 8 <= u32::MAX && r.y + (len - 1) * (sec_h + 8) <= u32::MAX),
            out@ == start + section_cards(r, sv.sections, i as nat, sec_h as nat, card_bg@, accent1@, fv),
        decreases len - i,
    {
        let s = &spec.sections[i];
        assert((i as int) * (sec_h + 8) <= (len - 1) * (sec_h + 8)) by (nonlinear_arith)
            requires
                (i as int) < len,
                sec_h >= 0;
        let y = r.y + (i as u32) * (sec_h + gap);
        let t = &fitted[base + 2 * i];
        let d = &fitted[base + 2 * i + 1];
        push_section_block(out, r.x, y, r.w, sec_h, card_bg, accent1, s.step_number, t.as_str(), d.as_str());
        assert(sv.sections[i as int] == s@);
        assert(fv[2 * i as int] == t@);
        assert(fv[2 * i as int + 1] == d@);
        i = i + 1;
    }
}

/// The characters of an optional text.
pub open spec fn opt_text(o: Option<&str>) -> Option<Seq<char>> {
    match o {
        Some(t) => Some(t@),
        None => None,
    }
}

/// Composes the SVG document of `spec` over `regions` (pixel rectangles,
/// each bound to a slot; the first region of a slot is the one used).
/// `fitted` holds the texts of `fit_requests(regions, spec)`, each cut to its
/// budget, in the same order; `icons` is the glyph table for the metric
/// icons; `chart` is the chart fragment for the chart region; `inter_b64`
/// and `thai_b64` are the base64 payloads of the two font files. Gives
/// `None` when there are no regions.
pub fn render_svg_regions(regions: &[RegionRect], spec: &InfographicLayoutSpec, fitted: &[String], icons: &IconRenderer, chart: Option<&str>, inter_b64: &str, thai_b64: &str) -> (r: Option<String>)
    requires
        icons.wf(),
        composable(regions@, spec@),
        fitted@.len() == fit_plan(regions@, spec@).len(),
    ensures
        r.is_some() == (regions@.len() > 0),
        r.is_some() ==> r.unwrap()@ == regions_document(regions@, spec@, string_views(fitted@), icons.table(), opt_text(chart),
            inter_b64@, thai_b64@),
{
    if regions.len() == 0 {
        return None;
    }
    let ghost sv = spec@;
    let ghost rs = regions@;
    let ghost fv = string_views(fitted@);
    let ghost c = theme_colors(spec.theme);
    proof {
        lemma_section_pairs_len(sv.sections, 0);
        let b = match first_rect(rs, Slot::Sections) { Some(r) => sat_sub(r.w as int, 56), None => 0 };
        lemma_section_pairs_len(sv.sections, b);
    }
    let (width, height) = spec.aspect_ratio.dimensions();
    let colors = spec.theme.colors();
    let (_bg, card_bg, accent1, accent2, _text) = colors;
    let thai = needs_thai(spec);
    let mut svg = String::new();
    push_regions_head(&mut svg, width, height, colors, thai, inter_b64, thai_b64);
    let ghost p0 = svg@;
    let mut k: usize = 0;
    if let Some(r) = rect_for(regions, Slot::Title) {
        push_title_block(&mut svg, r, accent1, fitted[0].as_str());
        k = 1;
    }
    assert(k as int == title_fits(rs, sv).len());
    let ghost p1 = svg@;
    if let Some(r) = rect_for(regions, Slot::Subtitle) {
        if spec.subtitle.is_some() {
            push_subtitle_block(&mut svg, r, fitted[k].as_str());
            k = k + 1;
        }
    }
    assert(k as int == title_fits(rs, sv).len() + subtitle_fits(rs, sv).len());
    let ghost p2 = svg@;
    if let Some(r) = rect_for(regions, Slot::Metrics) {
        if spec.metrics.len() > 0 {
            push_metrics_band(&mut svg, r, spec, card_bg, accent2, icons);
        }
    }
    assert(svg@ == p2 + metrics_part(rs, sv, c, icons.table()));
    let ghost p3 = svg@;
    if let Some(_r) = rect_for(regions, Slot::Chart) {
        if let Some(ch) = chart {
            push_str(&mut svg, ch);
        }
    }
    assert(svg@ == p3 + chart_part(rs, opt_text(chart)));
    let ghost p4 = svg@;
    if let Some(r) = rect_for(regions, Slot::Sections) {
        push_section_cards(&mut svg, r, spec, card_bg, accent1, fitted, k);
        k = k + 2 * spec.sections.len();
    }
    assert(svg@ == p4 + sections_part(rs, sv, c, fv.skip((title_fits(rs, sv).len() + subtitle_fits(rs, sv).len()) as int)));
    assert(k as int == title_fits(rs, sv).len() + subtitle_fits(rs, sv).len() + section_fits(rs, sv).len());
    let ghost p5 = svg@;
    if let Some(r) = rect_for(regions, Slot::Footer) {
        if spec.footer_note.is_some() {
            push_footer_block(&mut svg, r, fitted[k].as_str());
        }
    }
    push_str(&mut svg, "</svg>");
    assert(svg@ =~= regions_document(rs, sv, fv, icons.table(), opt_text(chart), inter_b64@, thai_b64@));
    Some(svg)
}


/// Metric cards of a band do not overlap: card `i` ends at least 10 px
/// before card `j` starts, for `i < j`.
pub proof fn lemma_metric_cards_disjoint(w: int, n: int, i: int, j: int)
    requires
        w >= 0,
        0 <= i < j < n,
    ensures
        i * (card_width(w, n) + 10) + card_width(w, n) + 10 <= j * (card_width(w, n) + 10),
{
    let cw = card_width(w, n);
    assert(cw >= 0) by (nonlinear_arith)
        requires
            cw == sat_sub(w, (n - 1) * 10) / n,
            n >= 1,
            sat_sub(w, (n - 1) * 10) >= 0;
    assert((j - i) * (cw + 10) >= cw + 10) by (nonlinear_arith)
        requires
            j - i >= 1,
            cw + 10 >= 0;
    assert(j * (cw + 10) - i * (cw + 10) == (j - i) * (cw + 10)) by (nonlinear_arith);
}

/// The metric cards of a band fit its region: the last card ends within the
/// region's width when the gaps do.
pub proof fn lemma_metric_cards_fit(w: int, n: int)
    requires
        n >= 1,
        (n - 1) * 10 <= w,
    ensures
        (n - 1) * (card_width(w, n) + 10) + card_width(w, n) <= w,
{
    let cw = card_width(w, n);
    let free = w - (n - 1) * 10;
    assert(cw == free / n);
    assert(cw * n <= free) by (nonlinear_arith)
        requires
            cw == free / n,
            n >= 1,
            free >= 0;
    assert((n - 1) * (cw + 10) + cw == cw * n + (n - 1) * 10) by (nonlinear_arith);
}

/// Section cards do not overlap: card `i` ends at least 8 px before card `j`
/// starts, for `i < j`.
pub proof fn lemma_section_cards_disjoint(h: int, n: int, i: int, j: int)
    requires
        h >= 0,
        0 <= i < j < n,
    ensures
        i * (section_height(h, n) + 8) + section_height(h, n) + 8 <= j * (section_height(h, n) + 8),
{
    let sh = section_height(h, n);
    let m = if n > 1 { n } else { 1 };
    assert(sh >= 0) by (nonlinear_arith)
        requires
            sh == sat_sub(h, (m - 1) * 8) / m,
            m >= 1,
            sat_sub(h, (m - 1) * 8) >= 0;
    assert((j - i) * (sh + 8) >= sh + 8) by (nonlinear_arith)
        requires
            j - i >= 1,
            sh + 8 >= 0;
    assert(j * (sh + 8) - i * (sh + 8) == (j - i) * (sh + 8)) by (nonlinear_arith);
}

/// The section cards fit their region: the last card ends within the
/// region's height when the gaps do.
pub proof fn lemma_section_cards_fit(h: int, n: int)
    requires
        n >= 1,
        (n - 1) * 8 <= h,
    ensures
        (n - 1) * (section_height(h, n) + 8) + section_height(h, n) <= h,
{
    let sh = section_height(h, n);
    let free = h - (n - 1) * 8;
    assert(sh == free / n);
    assert(sh * n <= free) by (nonlinear_arith)
        requires
            sh == free / n,
            n >= 1,
            free >= 0;
    assert((n - 1) * (sh + 8) + sh == sh * n + (n - 1) * 8) by (nonlinear_arith);
}


/// SVG-escaped text holds no `<` or `>`, so it cannot open or close an
/// element.
pub proof fn lemma_svg_escape_no_tags(s: Seq<char>)
    ensures
        forall|i: int| 0 <= i < svg_escape(s).len() ==> #[trigger] svg_escape(s)[i] != '<' && svg_escape(s)[i] != '>',
    decreases s.len(),
{
    if s.len() > 0 {
        lemma_svg_escape_no_tags(s.drop_last());
        let p = svg_escape(s.drop_last());
        let e = svg_escape_char(s.last());
        reveal_strlit("&amp;");
        reveal_strlit("&lt;");
        reveal_strlit("&gt;");
        assert forall|i: int| 0 <= i < svg_escape(s).len() implies #[trigger] svg_escape(s)[i] != '<' && svg_escape(s)[i] != '>' by {
            if i >= p.len() {
                assert(svg_escape(s)[i] == e[i - p.len()]);
            } else {
                assert(svg_escape(s)[i] == p[i]);
            }
        }
    }
}


/// Whether the coordinates the composition of `spec` over `regions`
/// computes all fit in `u32` (what `render_svg_regions` requires).
pub fn regions_fit(regions: &[RegionRect], spec: &InfographicLayoutSpec) -> (r: bool)
    ensures
        r == composable(regions@, spec@),
{
    let ghost sv = spec@;
    let max: u64 = 0xFFFF_FFFF;
    if let Some(r) = rect_for(regions, Slot::Subtitle) {
        if spec.subtitle.is_some() && (r.y as u64) + 18 > max {
            return false;
        }
    }
    if let Some(r) = rect_for(regions, Slot::Metrics) {
        let n = spec.metrics.len();
        if n > 0 {
            if n as u64 > max || ((n - 1) as u64) * 10 > max {
                return false;
            }
            let free: u64 = if (r.w as u64) >= ((n - 1) as u64) * 10 { (r.w as u64) - ((n - 1) as u64) * 10 } else { 0 };
            let cw: u64 = free / (n as u64);
            assert(cw as int == card_width(r.w as int, n as int));
            if cw + 10 > max {
                return false;
            }
            assert(cw <= 0xFFFF_FFFF) by (nonlinear_arith)
                requires
                    cw == free / (n as u64),
                    free <= 0xFFFF_FFFF,
                    n >= 1;
            assert(((n - 1) as u64) * (cw + 10) <= 0xFFFF_FFFF * 0x1_0000_0000) by (nonlinear_arith)
                requires
                    (n - 1) as u64 <= 0xFFFF_FFFF,
                    cw + 10 <= 0xFFFF_FFFF;
            if (r.x as u128) + ((n - 1) as u128) * ((cw + 10) as u128) > max as u128 {
                return false;
            }
        }
    }
    if let Some(r) = rect_for(regions, Slot::Sections) {
        let n = spec.sections.len();
        if n as u64 > max {
            return false;
        }
        if n > 0 {
            if ((n - 1) as u64) * 8 > max {
                return false;
            }
            let m: u64 = if n > 1 { n as u64 } else { 1 };
            let free: u64 = if (r.h as u64) >= (m - 1) * 8 { (r.h as u64) - (m - 1) * 8 } else { 0 };
            let sh: u64 = free / m;
            assert(sh as int == section_height(r.h as int, n as int));
            if sh + 8 > max {
                return false;
            }
            assert(sh <= 0xFFFF_FFFF) by (nonlinear_arith)
                requires
                    sh == free / m,
                    free <= 0xFFFF_FFFF,
                    m >= 1;
            assert(((n - 1) as u128) * ((sh + 8) as u128) <= 0xFFFF_FFFF * 0x1_0000_0000) by (nonlinear_arith)
                requires
                    (n - 1) as u128 <= 0xFFFF_FFFF,
                    (sh + 8) as u128 <= 0xFFFF_FFFF;
            if (r.y as u128) + ((n - 1) as u128) * ((sh + 8) as u128) > max as u128 {
                return false;
            }
        }
    }
    if let Some(r) = rect_for(regions, Slot::Footer) {
        if spec.footer_note.is_some() && ((r.x as u64) + (r.w as u64) / 2 > max || (r.y as u64) + (r.h as u64) / 2 > max) {
            return false;
        }
    }
    true
}

proof fn lemma_section_pairs_at(ss: Seq<SectionView>, budget: int, i: int)
    requires
        0 <= i < ss.len(),
    ensures
        section_pairs(ss, budget)[2 * i] == (ss[i].title, 15int, budget),
        section_pairs(ss, budget)[2 * i + 1] == (ss[i].description, 11int, budget),
    decreases ss.len(),
{
    lemma_section_pairs_len(ss.drop_last(), budget);
    if i < ss.len() - 1 {
        lemma_section_pairs_at(ss.drop_last(), budget, i);
    }
}

/// A section card holds its title text element and then its description
/// text element.
#[verifier::spinoff_prover]
proof fn lemma_block_texts(x: nat, y: nat, w: nat, sh: nat, card_bg: Seq<char>, accent1: Seq<char>, step: nat, title: Seq<char>, desc: Seq<char>)
    ensures
        crate::router::is_piece(
            section_block(x, y, w, sh, card_bg, accent1, step, title, desc),
            "</text>\n  <text x=\"44\" y=\"22\" class=\"card-title\">"@ + svg_escape(title)
                + "</text>\n  <text x=\"44\" y=\"40\" class=\"card-desc\">"@ + svg_escape(desc) + "</text>\n</g>\n"@,
        ),
{
    let blk = section_block(x, y, w, sh, card_bg, accent1, step, title, desc);
    let piece = "</text>\n  <text x=\"44\" y=\"22\" class=\"card-title\">"@ + svg_escape(title)
        + "</text>\n  <text x=\"44\" y=\"40\" class=\"card-desc\">"@ + svg_escape(desc) + "</text>\n</g>\n"@;
    let pre = "<g transform=\"translate("@ + dec(x) + ", "@ + dec(y) + ")\">\n  <rect width=\""@ + dec(w) + "\" height=\""@ + dec(sh)
        + "\" rx=\"10\" fill=\""@ + card_bg + "\" stroke=\"#1F2937\" stroke-width=\"1\" />\n  <circle cx=\"22\" cy=\""@
        + dec(sh / 2) + "\" r=\"12\" fill=\""@ + accent1 + "\" />\n  <text x=\"22\" y=\""@ + dec(sh / 2 + 4)
        + "\" text-anchor=\"middle\" class=\"badge\">"@ + dec(step);
    assert(blk =~= pre + piece);
    crate::router::lemma_piece_right(pre, piece);
}

proof fn lemma_cards_hold_block(r: RegionRect, ss: Seq<SectionView>, m: nat, sh: nat, card_bg: Seq<char>, accent1: Seq<char>, fitted: Seq<Seq<char>>, i: int)
    requires
        0 <= i < m,
    ensures
        crate::router::is_piece(
            section_cards(r, ss, m, sh, card_bg, accent1, fitted),
            section_block(r.x as nat, (r.y + i * (sh + 8)) as nat, r.w as nat, sh, card_bg, accent1, ss[i].step_number,
                fitted[2 * i], fitted[2 * i + 1]),
        ),
    decreases m,
{
    let prev = section_cards(r, ss, (m - 1) as nat, sh, card_bg, accent1, fitted);
    let last = section_block(r.x as nat, (r.y + (m - 1) * (sh + 8)) as nat, r.w as nat, sh, card_bg, accent1,
        ss[m - 1].step_number, fitted[2 * (m - 1)], fitted[2 * (m - 1) + 1]);
    if i == m - 1 {
        crate::router::lemma_piece_right(prev, last);
    } else {
        lemma_cards_hold_block(r, ss, (m - 1) as nat, sh, card_bg, accent1, fitted, i);
        crate::router::lemma_piece_left(prev, last);
        crate::router::lemma_piece_trans(prev + last, prev, section_block(r.x as nat, (r.y + i * (sh + 8)) as nat, r.w as nat,
            sh, card_bg, accent1, ss[i].step_number, fitted[2 * i], fitted[2 * i + 1]));
    }
}

/// The composed document holds its section cards.
#[verifier::spinoff_prover]
proof fn lemma_document_holds_sections(rs: Seq<RegionRect>, s: LayoutSpecView, fitted: Seq<Seq<char>>, table: Map<Seq<char>, Seq<Seq<char>>>, chart: Option<Seq<char>>, inter_b64: Seq<char>, thai_b64: Seq<char>)
    ensures
        crate::router::is_piece(
            regions_document(rs, s, fitted, table, chart, inter_b64, thai_b64),
            sections_part(rs, s, theme_colors(s.theme), fitted.skip((title_fits(rs, s).len() + subtitle_fits(rs, s).len()) as int)),
        ),
{
    let nt = title_fits(rs, s).len() as int;
    let nsub = subtitle_fits(rs, s).len() as int;
    let c = theme_colors(s.theme);
    let secs = sections_part(rs, s, c, fitted.skip(nt + nsub));
    let doc = regions_document(rs, s, fitted, table, chart, inter_b64, thai_b64);
    let head = regions_head(dims(s.aspect_ratio).0 as nat, dims(s.aspect_ratio).1 as nat, c, text_needs_thai(s), inter_b64, thai_b64)
        + (match first_rect(rs, Slot::Title) {
            Some(r) => title_block(r, c.2, fitted[0]),
            None => seq![],
        })
        + (match (first_rect(rs, Slot::Subtitle), s.subtitle) {
            (Some(r), Some(_)) => subtitle_block(r, fitted[nt]),
            _ => seq![],
        })
        + metrics_part(rs, s, c, table)
        + chart_part(rs, chart);
    let nsec = section_fits(rs, s).len() as int;
    let tail = (match (first_rect(rs, Slot::Footer), s.footer_note) {
            (Some(r), Some(_)) => footer_block(r, fitted[nt + nsub + nsec]),
            _ => seq![],
        })
        + "</svg>"@;
    assert(doc =~= (head + secs) + tail);
    crate::router::lemma_piece_right(head, secs);
    crate::router::lemma_piece_left(head + secs, tail);
    crate::router::lemma_piece_trans(doc, head + secs, secs);
}

/// Section card `i` of the composed document shows the section's title in
/// its title text element and the section's description in its description
/// text element: the cut texts at the section's two places in the fit plan,
/// which are the requests for section `i`'s title and description, each
/// SVG-escaped.
#[verifier::spinoff_prover]
#[verifier::rlimit(40)]
pub proof fn lemma_section_card_texts(rs: Seq<RegionRect>, s: LayoutSpecView, fitted: Seq<Seq<char>>, table: Map<Seq<char>, Seq<Seq<char>>>, chart: Option<Seq<char>>, inter_b64: Seq<char>, thai_b64: Seq<char>, i: int)
    requires
        first_rect(rs, Slot::Sections) is Some,
        0 <= i < s.sections.len(),
        fitted.len() == fit_plan(rs, s).len(),
    ensures
        ({
            let k = title_fits(rs, s).len() + subtitle_fits(rs, s).len() + 2 * i;
            &&& fit_plan(rs, s)[k].0 == s.sections[i].title
            &&& fit_plan(rs, s)[k + 1].0 == s.sections[i].description
            &&& crate::router::is_piece(
                regions_document(rs, s, fitted, table, chart, inter_b64, thai_b64),
                "</text>\n  <text x=\"44\" y=\"22\" class=\"card-title\">"@ + svg_escape(fitted[k])
                    + "</text>\n  <text x=\"44\" y=\"40\" class=\"card-desc\">"@ + svg_escape(fitted[k + 1]) + "</text>\n</g>\n"@,
            )
        }),
{
    let nt = title_fits(rs, s).len() as int;
    let nsub = subtitle_fits(rs, s).len() as int;
    let k = nt + nsub + 2 * i;
    let r = first_rect(rs, Slot::Sections).unwrap();
    let b = sat_sub(r.w as int, 56);
    lemma_section_pairs_len(s.sections, b);
    lemma_section_pairs_at(s.sections, b, i);
    let t = title_fits(rs, s);
    let u = subtitle_fits(rs, s);
    let sp = section_pairs(s.sections, b);
    let f = footer_fits(rs, s);
    assert(fit_plan(rs, s) == t + u + sp + f);
    assert(fit_plan(rs, s)[k] == sp[2 * i]);
    assert(fit_plan(rs, s)[k + 1] == sp[2 * i + 1]);
    let c = theme_colors(s.theme);
    let fv = fitted.skip(nt + nsub);
    let n = s.sections.len();
    let sh = section_height(r.h as int, n as int) as nat;
    let blk = section_block(r.x as nat, (r.y + i * (sh + 8)) as nat, r.w as nat, sh, c.1, c.2, s.sections[i].step_number,
        fv[2 * i], fv[2 * i + 1]);
    assert(fv[2 * i] == fitted[k]);
    assert(fv[2 * i + 1] == fitted[k + 1]);
    let piece = "</text>\n  <text x=\"44\" y=\"22\" class=\"card-title\">"@ + svg_escape(fitted[k])
        + "</text>\n  <text x=\"44\" y=\"40\" class=\"card-desc\">"@ + svg_escape(fitted[k + 1]) + "</text>\n</g>\n"@;
    lemma_block_texts(r.x as nat, (r.y + i * (sh + 8)) as nat, r.w as nat, sh, c.1, c.2, s.sections[i].step_number,
        fv[2 * i], fv[2 * i + 1]);
    lemma_cards_hold_block(r, s.sections, n, sh, c.1, c.2, fv, i);
    let secs = sections_part(rs, s, c, fv);
    crate::router::lemma_piece_trans(secs, blk, piece);
    lemma_document_holds_sections(rs, s, fitted, table, chart, inter_b64, thai_b64);
    crate::router::lemma_piece_trans(regions_document(rs, s, fitted, table, chart, inter_b64, thai_b64), secs, piece);
}

} // verus!
