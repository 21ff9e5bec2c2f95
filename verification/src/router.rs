//! Intent router and fixed-layout vector renderer: classifies a free-text prompt
//! into a typed infographic specification and renders it as a standalone SVG.

use crate::font::{font_stack, font_stack_text, font_style_block, font_style_text, needs_thai, text_needs_thai};

use crate::strs::{detect_lang, footer_text, lang_of, subtitle_text, Lang, Strs};
use crate::strutil::{
    dec, push_dec, push_str, to_uppercase, uppercase,
    ascii_upper_seq, contains, is_ws, join_first_words, join_words, lowercase, make_ascii_uppercase,
    seq_contains, split_whitespace, str_chars, string_of_chars, to_lowercase, views, words,
};
use crate::compositor::{push_escaped_svg, svg_escape};
use crate::numtext::{is_float, is_float_text};
use crate::textscan::{split_chars, split_on};
use vstd::prelude::*;

verus! {

/// Supported infographic layout types.
#[derive(Debug, Clone, Copy, PartialEq, Eq, Structural)]
pub enum LayoutType {
    ProcessTimeline,
    StatisticalDashboard,
    ComparisonGrid,
    MindmapHierarchy,
}

/// Color palette themes.
#[derive(Debug, Clone, Copy, PartialEq, Eq, Structural)]
pub enum PaletteTheme {
    TechDark,
    FinancialNavy,
    VibrantCoral,
    AcademicWarm,
    OceanBreeze,
    SunsetGlow,
    ForestMint,
    Monochrome,
}

/// The five color roles of a theme: background, card background, first
/// accent, second accent, text.
pub open spec fn theme_colors(t: PaletteTheme) -> (Seq<char>, Seq<char>, Seq<char>, Seq<char>, Seq<char>) {
    match t {
        PaletteTheme::TechDark => ("#0B0F19"@, "#111827"@, "#3B82F6"@, "#10B981"@, "#F9FAFB"@),
        PaletteTheme::FinancialNavy => ("#0F172A"@, "#1E293B"@, "#6366F1"@, "#06B6D4"@, "#F8FAFC"@),
        PaletteTheme::VibrantCoral => ("#18181B"@, "#27272A"@, "#F43F5E"@, "#FB923C"@, "#FAFAFA"@),
        PaletteTheme::AcademicWarm => ("#1C1917"@, "#292524"@, "#F59E0B"@, "#10B981"@, "#F5F5F4"@),
        PaletteTheme::OceanBreeze => ("#0C4A6E"@, "#075985"@, "#38BDF8"@, "#2DD4BF"@, "#F0F9FF"@),
        PaletteTheme::SunsetGlow => ("#431407"@, "#7C2D12"@, "#F97316"@, "#FACC15"@, "#FFF7ED"@),
        PaletteTheme::ForestMint => ("#052E16"@, "#14532D"@, "#22C55E"@, "#A7F3D0"@, "#F0FDF4"@),
        PaletteTheme::Monochrome => ("#111111"@, "#222222"@, "#FFFFFF"@, "#AAAAAA"@, "#F5F5F5"@),
    }
}

impl PaletteTheme {
    /// The theme's color roles (bg, cardBg, accent1, accent2, text).
    pub fn colors(&self) -> (r: (&'static str, &'static str, &'static str, &'static str, &'static str))
        ensures
            (r.0@, r.1@, r.2@, r.3@, r.4@) == theme_colors(*self),
    {
        match self {
            PaletteTheme::TechDark => ("#0B0F19", "#111827", "#3B82F6", "#10B981", "#F9FAFB"),
            PaletteTheme::FinancialNavy => ("#0F172A", "#1E293B", "#6366F1", "#06B6D4", "#F8FAFC"),
            PaletteTheme::VibrantCoral => ("#18181B", "#27272A", "#F43F5E", "#FB923C", "#FAFAFA"),
            PaletteTheme::AcademicWarm => ("#1C1917", "#292524", "#F59E0B", "#10B981", "#F5F5F4"),
            PaletteTheme::OceanBreeze => ("#0C4A6E", "#075985", "#38BDF8", "#2DD4BF", "#F0F9FF"),
            PaletteTheme::SunsetGlow => ("#431407", "#7C2D12", "#F97316", "#FACC15", "#FFF7ED"),
            PaletteTheme::ForestMint => ("#052E16", "#14532D", "#22C55E", "#A7F3D0", "#F0FDF4"),
            PaletteTheme::Monochrome => ("#111111", "#222222", "#FFFFFF", "#AAAAAA", "#F5F5F5"),
        }
    }
}

/// Canvas aspect ratio.
#[allow(non_camel_case_types)]
#[derive(Debug, Clone, Copy, PartialEq, Eq, Structural)]
pub enum AspectRatio {
    A4Poster,
    Banner16_9,
    Square1_1,
}

/// Canvas size in pixels (width, height) of an aspect ratio.
pub open spec fn dims(a: AspectRatio) -> (int, int) {
    match a {
        AspectRatio::A4Poster => (800, 1131),
        AspectRatio::Banner16_9 => (1200, 675),
        AspectRatio::Square1_1 => (800, 800),
    }
}

impl AspectRatio {
    /// Canvas size in pixels: A4 poster 800x1131, banner 1200x675, square 800x800.
    pub fn dimensions(&self) -> (r: (u32, u32))
        ensures
            (r.0 as int, r.1 as int) == dims(*self),
    {
        match self {
            AspectRatio::A4Poster => (800, 1131),
            AspectRatio::Banner16_9 => (1200, 675),
            AspectRatio::Square1_1 => (800, 800),
        }
    }
}

/// A key metric card.
#[derive(Debug, Clone)]
pub struct MetricCardSpec {
    pub label: String,
    pub value: String,
    pub icon: String,
}

/// The character content of a metric card.
pub struct MetricView {
    pub label: Seq<char>,
    pub value: Seq<char>,
    pub icon: Seq<char>,
}

impl View for MetricCardSpec {
    type V = MetricView;

    open spec fn view(&self) -> MetricView {
        MetricView { label: self.label@, value: self.value@, icon: self.icon@ }
    }
}

/// A layout section card (one step).
#[derive(Debug, Clone)]
pub struct SectionSpec {
    pub step_number: usize,
    pub title: String,
    pub description: String,
}

/// The content of a section card.
pub struct SectionView {
    pub step_number: nat,
    pub title: Seq<char>,
    pub description: Seq<char>,
}

impl View for SectionSpec {
    type V = SectionView;

    open spec fn view(&self) -> SectionView {
        SectionView { step_number: self.step_number as nat, title: self.title@, description: self.description@ }
    }
}

/// Chart kinds.
#[derive(Debug, Clone, Copy, PartialEq, Eq, Structural)]
pub enum ChartType {
    Bar,
    Line,
    Pie,
    Donut,
    Scatter,
    Heatmap,
    Gauge,
    StackedBar,
    Area,
}

/// A chart bound from a prompt: its kind, the point labels and the number
/// texts of their values.
#[derive(Debug, Clone)]
pub struct PromptChart {
    pub chart_type: ChartType,
    pub labels: Vec<String>,
    pub values: Vec<String>,
}

/// The content of a chart.
pub struct ChartView {
    pub chart_type: ChartType,
    pub labels: Seq<Seq<char>>,
    pub values: Seq<Seq<char>>,
}

impl View for PromptChart {
    type V = ChartView;

    open spec fn view(&self) -> ChartView {
        ChartView {
            chart_type: self.chart_type,
            labels: self.labels@.map_values(|s: String| s@),
            values: self.values@.map_values(|s: String| s@),
        }
    }
}

/// The typed infographic layout specification.
#[derive(Debug, Clone)]
pub struct InfographicLayoutSpec {
    pub layout_type: LayoutType,
    pub theme: PaletteTheme,
    pub aspect_ratio: AspectRatio,
    pub title: String,
    pub subtitle: Option<String>,
    pub metrics: Vec<MetricCardSpec>,
    pub sections: Vec<SectionSpec>,
    pub footer_note: Option<String>,
    pub chart: Option<PromptChart>,
    pub layout_id: String,
    pub lang: Lang,
}

/// The content of a layout specification.
pub struct LayoutSpecView {
    pub layout_type: LayoutType,
    pub theme: PaletteTheme,
    pub aspect_ratio: AspectRatio,
    pub title: Seq<char>,
    pub subtitle: Option<Seq<char>>,
    pub metrics: Seq<MetricView>,
    pub sections: Seq<SectionView>,
    pub footer_note: Option<Seq<char>>,
    pub chart: Option<ChartView>,
    pub layout_id: Seq<char>,
    pub lang: Lang,
}

/// The characters of an optional string.
pub open spec fn opt_view(o: Option<String>) -> Option<Seq<char>> {
    match o {
        Some(s) => Some(s@),
        None => None,
    }
}

impl View for InfographicLayoutSpec {
    type V = LayoutSpecView;

    open spec fn view(&self) -> LayoutSpecView {
        LayoutSpecView {
            layout_type: self.layout_type,
            theme: self.theme,
            aspect_ratio: self.aspect_ratio,
            title: self.title@,
            subtitle: opt_view(self.subtitle),
            metrics: self.metrics@.map_values(|m: MetricCardSpec| m@),
            sections: self.sections@.map_values(|s: SectionSpec| s@),
            footer_note: opt_view(self.footer_note),
            chart: match self.chart {
                Some(c) => Some(c@),
                None => None,
            },
            layout_id: self.layout_id@,
            lang: self.lang,
        }
    }
}


/// Bounds that the constraint pruner enforces on a layout.
pub struct InfographicConstraintPruner {
    pub max_sections: usize,
    pub max_metrics: usize,
    pub max_title_len: usize,
}

impl Default for InfographicConstraintPruner {
    /// Eight sections, four metrics, titles of eighty characters.
    fn default() -> (p: Self)
        ensures
            p.max_sections == 8,
            p.max_metrics == 4,
            p.max_title_len == 80,
    {
        InfographicConstraintPruner { max_sections: 8, max_metrics: 4, max_title_len: 80 }
    }
}

impl InfographicConstraintPruner {
    /// A token path is kept when it holds at most four tokens per allowed
    /// section and the token index is below 1000.
    pub fn is_valid(&self, depth: usize, token_idx: usize, parent_tokens: &[usize]) -> (b: bool)
        requires
            self.max_sections * 4 <= usize::MAX,
        ensures
            b == (parent_tokens@.len() <= self.max_sections * 4 && token_idx < 1000),
    {
        if parent_tokens.len() > self.max_sections * 4 {
            return false;
        }
        token_idx < 1000
    }
}

/// The intent router.
pub struct InfographicIntentRouter {
    pub pruner: InfographicConstraintPruner,
}

/// Layout classification of a lower-cased prompt.
pub open spec fn classify_layout(l: Seq<char>) -> LayoutType {
    if seq_contains(l, "timeline"@) || seq_contains(l, "step"@) || seq_contains(l, "roadmap"@) || seq_contains(l, "process"@) || seq_contains(l, "ไทม์ไลน์"@) || seq_contains(l, "ขั้นตอน"@) || seq_contains(l, "กระบวนการ"@) || seq_contains(l, "แผนงาน"@) {
        LayoutType::ProcessTimeline
    } else if seq_contains(l, "dashboard"@) || seq_contains(l, "stat"@) || seq_contains(l, "metric"@) || seq_contains(l, "kpi"@) || seq_contains(l, "แดชบอร์ด"@) || seq_contains(l, "สถิติ"@) || seq_contains(l, "ตัวชี้วัด"@) {
        LayoutType::StatisticalDashboard
    } else if seq_contains(l, "compare"@) || seq_contains(l, "vs"@) || seq_contains(l, "feature"@) || seq_contains(l, "matrix"@) || seq_contains(l, "เปรียบเทียบ"@) || seq_contains(l, "ฟีเจอร์"@) {
        LayoutType::ComparisonGrid
    } else {
        LayoutType::MindmapHierarchy
    }
}

/// Theme classification of a lower-cased prompt.
pub open spec fn classify_theme(l: Seq<char>) -> PaletteTheme {
    if seq_contains(l, "navy"@) || seq_contains(l, "finance"@) || seq_contains(l, "bank"@) || seq_contains(l, "การเงิน"@) || seq_contains(l, "น้ำเงิน"@) || seq_contains(l, "ธนาคาร"@) {
        PaletteTheme::FinancialNavy
    } else if seq_contains(l, "warm"@) || seq_contains(l, "coral"@) || seq_contains(l, "creative"@) || seq_contains(l, "สร้างสรรค์"@) || seq_contains(l, "ปะการัง"@) || seq_contains(l, "อบอุ่น"@) {
        PaletteTheme::VibrantCoral
    } else if seq_contains(l, "academic"@) || seq_contains(l, "paper"@) || seq_contains(l, "gold"@) || seq_contains(l, "วิชาการ"@) || seq_contains(l, "ทอง"@) {
        PaletteTheme::AcademicWarm
    } else if seq_contains(l, "ocean"@) || seq_contains(l, "breeze"@) || seq_contains(l, "sea"@) || seq_contains(l, "ทะเล"@) || seq_contains(l, "มหาสมุทร"@) {
        PaletteTheme::OceanBreeze
    } else if seq_contains(l, "sunset"@) || seq_contains(l, "glow"@) || seq_contains(l, "orange"@) || seq_contains(l, "พระอาทิตย์ตก"@) || seq_contains(l, "สีส้ม"@) {
        PaletteTheme::SunsetGlow
    } else if seq_contains(l, "forest"@) || seq_contains(l, "eco"@) || seq_contains(l, "mint"@) || seq_contains(l, "green"@) || seq_contains(l, "ธรรมชาติ"@) || seq_contains(l, "สีเขียว"@) || seq_contains(l, "ป่าไม้"@) {
        PaletteTheme::ForestMint
    } else if seq_contains(l, "monochrome"@) || seq_contains(l, "minimal"@) || seq_contains(l, "grayscale"@) || seq_contains(l, "ขาวดำ"@) {
        PaletteTheme::Monochrome
    } else {
        PaletteTheme::TechDark
    }
}

/// Aspect classification of a lower-cased prompt.
pub open spec fn classify_aspect(l: Seq<char>) -> AspectRatio {
    if seq_contains(l, "banner"@) || seq_contains(l, "header"@) || seq_contains(l, "landscape"@) || seq_contains(l, "แบนเนอร์"@) || seq_contains(l, "แนวนอน"@) {
        AspectRatio::Banner16_9
    } else if seq_contains(l, "square"@) || seq_contains(l, "post"@) || seq_contains(l, "จัตุรัส"@) || seq_contains(l, "โพสต์"@) {
        AspectRatio::Square1_1
    } else {
        AspectRatio::A4Poster
    }
}

/// Whether a layout is drawn on a canvas of the given aspect ratio: every
/// layout takes the A4 poster and the square; the radial mind map has no
/// banner form.
pub open spec fn layout_allows(l: LayoutType, a: AspectRatio) -> bool {
    !(l == LayoutType::MindmapHierarchy && a == AspectRatio::Banner16_9)
}

/// The aspect ratio kept for a layout: the requested one when the layout
/// allows it, else the layout's first allowed ratio, the A4 poster.
pub open spec fn clamp_aspect(l: LayoutType, a: AspectRatio) -> AspectRatio {
    if layout_allows(l, a) { a } else { AspectRatio::A4Poster }
}

impl LayoutType {
    /// Whether this layout is drawn on a canvas of ratio `a`.
    pub fn allows(&self, a: AspectRatio) -> (r: bool)
        ensures
            r == layout_allows(*self, a),
    {
        !(*self == LayoutType::MindmapHierarchy && a == AspectRatio::Banner16_9)
    }
}

/// At most the first `n` elements of `s`.
pub open spec fn first_n<A>(s: Seq<A>, n: int) -> Seq<A> {
    if n < s.len() { s.take(n) } else { s }
}

/// The title extracted from a lower-cased prompt: its first six words joined
/// with spaces, ASCII letters upper-cased; `None` when it has no word.
pub open spec fn extracted_title(l: Seq<char>) -> Option<Seq<char>> {
    if words(l).len() == 0 {
        None
    } else {
        Some(ascii_upper_seq(join_words(first_n(words(l), 6))))
    }
}

/// The title of the routed specification, cut to the pruner's eighty
/// characters.
pub open spec fn routed_title(l: Seq<char>) -> Seq<char> {
    match extracted_title(l) {
        Some(t) => first_n(t, 80),
        None => "SYSTEM ARCHITECTURE INFOGRAPHIC"@,
    }
}

/// The position of the last `:` of `q`, or -1.
pub open spec fn last_colon(q: Seq<char>) -> int
    decreases q.len(),
{
    if q.len() == 0 {
        -1
    } else if q.last() == ':' {
        q.len() - 1
    } else {
        last_colon(q.drop_last())
    }
}

/// The `label: value` pair of one comma-separated piece of a prompt: the
/// word before its last colon and the word after it; `None` when the piece
/// has no colon or either word is missing.
pub open spec fn pair_of(q: Seq<char>) -> Option<(Seq<char>, Seq<char>)> {
    let k = last_colon(q);
    if k < 0 {
        None
    } else {
        let lw = words(q.take(k));
        let rw = words(q.skip(k + 1));
        if lw.len() > 0 && rw.len() > 0 {
            Some((lw.last(), rw[0]))
        } else {
            None
        }
    }
}

/// The `label: value` pairs of the pieces, in order.
pub open spec fn pairs_of(ps: Seq<Seq<char>>) -> Seq<(Seq<char>, Seq<char>)>
    decreases ps.len(),
{
    if ps.len() == 0 {
        seq![]
    } else {
        pairs_of(ps.drop_last()) + match pair_of(ps.last()) {
            Some(x) => seq![x],
            None => seq![],
        }
    }
}

/// The icon of the `i`-th metric card.
pub open spec fn metric_icon(i: int) -> Seq<char> {
    if i == 0 {
        "zap"@
    } else if i == 1 {
        "cpu"@
    } else if i == 2 {
        "shield-check"@
    } else {
        "activity"@
    }
}

/// The metric cards of a prompt: its first four `label: value` pairs, taken
/// from its comma-separated pieces as they are written.
pub open spec fn routed_metrics(prompt: Seq<char>) -> Seq<MetricView> {
    let ps = first_n(pairs_of(split_on(prompt, ',')), 4);
    Seq::new(ps.len(), |i: int| MetricView { label: ps[i].0, value: ps[i].1, icon: metric_icon(i) })
}

/// The number spelled by a run of ASCII digits.
pub open spec fn digits_value(d: Seq<char>) -> nat
    decreases d.len(),
{
    if d.len() == 0 {
        0
    } else {
        10 * digits_value(d.drop_last()) + (d.last() as nat - 48) as nat
    }
}

/// Every character is an ASCII digit.
pub open spec fn all_digits(d: Seq<char>) -> bool {
    forall|i: int| 0 <= i < d.len() ==> '0' <= #[trigger] d[i] && d[i] <= '9'
}

/// The step count a word states: `N-step` with `N` in decimal digits.
pub open spec fn step_word(w: Seq<char>) -> Option<nat> {
    if w.len() > 5 && all_digits(w.take(w.len() - 5)) && w.skip(w.len() - 5) == "-step"@ {
        Some(digits_value(w.take(w.len() - 5)))
    } else {
        None
    }
}

/// The step count of the first word that states one.
pub open spec fn first_step(ws: Seq<Seq<char>>) -> Option<nat>
    decreases ws.len(),
{
    if ws.len() == 0 {
        None
    } else {
        match step_word(ws[0]) {
            Some(n) => Some(n),
            None => first_step(ws.skip(1)),
        }
    }
}

/// The step count a Thai prompt states with a numeral word before `ขั้น`
/// ("step"), one to nine.
pub open spec fn thai_step(l: Seq<char>) -> Option<nat> {
    if seq_contains(l, "หนึ่งขั้น"@) {
        Some(1nat)
    } else if seq_contains(l, "สองขั้น"@) {
        Some(2nat)
    } else if seq_contains(l, "สามขั้น"@) {
        Some(3nat)
    } else if seq_contains(l, "สี่ขั้น"@) {
        Some(4nat)
    } else if seq_contains(l, "ห้าขั้น"@) {
        Some(5nat)
    } else if seq_contains(l, "หกขั้น"@) {
        Some(6nat)
    } else if seq_contains(l, "เจ็ดขั้น"@) {
        Some(7nat)
    } else if seq_contains(l, "แปดขั้น"@) {
        Some(8nat)
    } else if seq_contains(l, "เก้าขั้น"@) {
        Some(9nat)
    } else {
        None
    }
}

/// The number of sections of a lower-cased prompt: the step count it states
/// (`N-step`, else a Thai numeral word before `ขั้น`), kept between two and
/// the pruner's eight; four when it states none.
pub open spec fn section_count(l: Seq<char>) -> nat {
    match first_step(words(l)) {
        Some(n) => if n < 2 { 2 } else if n > 8 { 8 } else { n },
        None => match thai_step(l) {
            Some(n) => if n < 2 { 2 } else if n > 8 { 8 } else { n },
            None => 4,
        },
    }
}

/// The section cards of a lower-cased prompt: `Step 1`, `Step 2`, ... up to
/// its section count.
pub open spec fn routed_sections(l: Seq<char>) -> Seq<SectionView> {
    Seq::new(section_count(l), |i: int| SectionView {
        step_number: (i + 1) as nat,
        title: "Step "@ + dec((i + 1) as nat),
        description: seq![],
    })
}

/// A Thai digit `๐`..`๙` as the ASCII digit of the same value; any other
/// character as it is.
pub open spec fn ascii_digit(c: char) -> char {
    if '\u{0E50}' <= c && c <= '\u{0E59}' { ((c as u32) - 0x0E50 + 48) as char } else { c }
}

/// The text with its Thai digits written as ASCII digits.
pub open spec fn ascii_digits(s: Seq<char>) -> Seq<char> {
    s.map_values(|c: char| ascii_digit(c))
}

/// The identifier of the layout archetype of a lower-cased prompt: a hero
/// quote, KPI snapshot, pricing table, organisation hierarchy, decision
/// flow or chart dashboard by keyword, else the archetype of its layout
/// type.
pub open spec fn layout_id_of(l: Seq<char>, t: LayoutType) -> Seq<char> {
    if seq_contains(l, "hero"@) || seq_contains(l, "quote"@) {
        "hero_quote"@
    } else if seq_contains(l, "snapshot"@) {
        "kpi_snapshot"@
    } else if seq_contains(l, "pricing"@) || seq_contains(l, "price"@) {
        "pricing_table"@
    } else if seq_contains(l, "organization"@) || seq_contains(l, "org chart"@) || seq_contains(l, "hierarchy"@) {
        "org_hierarchy"@
    } else if seq_contains(l, "decision"@) {
        "decision_flow"@
    } else if seq_contains(l, "chart"@) && seq_contains(l, "dashboard"@) {
        "chart_dashboard"@
    } else {
        match t {
            LayoutType::ProcessTimeline => "process_timeline"@,
            LayoutType::StatisticalDashboard => "statistical_dashboard"@,
            LayoutType::ComparisonGrid => "comparison_grid"@,
            LayoutType::MindmapHierarchy => "mindmap_hierarchy"@,
        }
    }
}

/// Whether a lower-cased prompt asks for a chart.
pub open spec fn wants_chart(l: Seq<char>) -> bool {
    seq_contains(l, "chart"@) || seq_contains(l, "graph"@) || seq_contains(l, "plot"@) || seq_contains(l, "แผนภูมิ"@)
        || seq_contains(l, "กราฟ"@)
}

/// The chart kind a lower-cased prompt names; a bar chart when it names none.
pub open spec fn classify_chart(l: Seq<char>) -> ChartType {
    if seq_contains(l, "stacked"@) {
        ChartType::StackedBar
    } else if seq_contains(l, "donut"@) {
        ChartType::Donut
    } else if seq_contains(l, "area"@) {
        ChartType::Area
    } else if seq_contains(l, "line"@) {
        ChartType::Line
    } else if seq_contains(l, "pie"@) {
        ChartType::Pie
    } else if seq_contains(l, "scatter"@) {
        ChartType::Scatter
    } else if seq_contains(l, "heatmap"@) {
        ChartType::Heatmap
    } else if seq_contains(l, "gauge"@) {
        ChartType::Gauge
    } else {
        ChartType::Bar
    }
}

/// The pairs whose value is a number text.
pub open spec fn numeric_pairs(ps: Seq<(Seq<char>, Seq<char>)>) -> Seq<(Seq<char>, Seq<char>)>
    decreases ps.len(),
{
    if ps.len() == 0 {
        seq![]
    } else {
        numeric_pairs(ps.drop_last()) + if is_float_text(ps.last().1) { seq![ps.last()] } else { seq![] }
    }
}

/// The chart of a lower-cased prompt: when it asks for one and states at
/// least two `label: number` pairs, those pairs in order.
pub open spec fn routed_chart(l: Seq<char>) -> Option<ChartView> {
    let ps = numeric_pairs(pairs_of(split_on(l, ',')));
    if wants_chart(l) && ps.len() >= 2 {
        Some(ChartView {
            chart_type: classify_chart(l),
            labels: ps.map_values(|p: (Seq<char>, Seq<char>)| p.0),
            values: ps.map_values(|p: (Seq<char>, Seq<char>)| p.1),
        })
    } else {
        None
    }
}

/// The specification routed from a prompt.
pub open spec fn route(prompt: Seq<char>) -> LayoutSpecView {
    let l = lowercase(prompt);
    let lang = lang_of(prompt);
    LayoutSpecView {
        layout_type: classify_layout(l),
        theme: classify_theme(l),
        aspect_ratio: clamp_aspect(classify_layout(l), classify_aspect(l)),
        title: routed_title(l),
        subtitle: Some(subtitle_text(lang)),
        metrics: routed_metrics(ascii_digits(prompt)),
        sections: routed_sections(l),
        footer_note: Some(footer_text(lang)),
        chart: routed_chart(ascii_digits(l)),
        layout_id: layout_id_of(l, classify_layout(l)),
        lang: lang,
    }
}

/// First six words of `prompt`, joined by spaces, ASCII upper-cased.
fn extract_title(prompt: &Vec<char>) -> (r: Option<Vec<char>>)
    ensures
        match r {
            Some(t) => extracted_title(prompt@) == Some(t@),
            None => extracted_title(prompt@) is None,
        },
{
    if prompt.len() == 0 {
        return None;
    }
    let ws = split_whitespace(prompt);
    if ws.len() == 0 {
        return None;
    }
    let mut title = join_first_words(&ws, 6);
    proof {
        let w = views(ws@);
        assert(w.take(w.len() as int) =~= w);
    }
    make_ascii_uppercase(&mut title);
    Some(title)
}

/// The characters of `v` from `lo` to `hi`.
fn copy_range(v: &Vec<char>, lo: usize, hi: usize) -> (r: Vec<char>)
    requires
        lo <= hi <= v.len(),
    ensures
        r@ == v@.subrange(lo as int, hi as int),
{
    let mut r: Vec<char> = Vec::new();
    let mut i = lo;
    while i < hi
        invariant
            lo <= i <= hi <= v.len(),
            r@ == v@.subrange(lo as int, i as int),
        decreases hi - i,
    {
        r.push(v[i]);
        i = i + 1;
    }
    r
}

/// The position of the last `:` of `q`.
fn find_last_colon(q: &Vec<char>) -> (r: Option<usize>)
    ensures
        match r {
            Some(k) => last_colon(q@) == k as int && k < q.len(),
            None => last_colon(q@) == -1,
        },
{
    let mut i = q.len();
    assert(q@.take(i as int) == q@);
    while i > 0
        invariant
            i <= q.len(),
            forall|j: int| i <= j < q.len() ==> q@[j] != ':',
            last_colon(q@) == last_colon(q@.take(i as int)),
        decreases i,
    {
        assert(q@.take(i as int).drop_last() == q@.take(i - 1));
        if q[i - 1] == ':' {
            return Some(i - 1);
        }
        i = i - 1;
    }
    None
}

/// The `label: value` pair of one comma-separated piece.
fn pair_from(q: &Vec<char>) -> (r: Option<(Vec<char>, Vec<char>)>)
    ensures
        match r {
            Some(x) => pair_of(q@) == Some((x.0@, x.1@)),
            None => pair_of(q@) is None,
        },
{
    match find_last_colon(q) {
        None => None,
        Some(k) => {
            let before = copy_range(q, 0, k);
            let after = copy_range(q, k + 1, q.len());
            assert(before@ == q@.take(k as int));
            assert(after@ == q@.skip(k + 1));
            let lw = split_whitespace(&before);
            let rw = split_whitespace(&after);
            if lw.len() > 0 && rw.len() > 0 {
                let a = lw[lw.len() - 1].clone();
                let b = rw[0].clone();
                assert(views(lw@).last() == lw@[lw.len() - 1]@);
                assert(views(rw@)[0] == rw@[0]@);
                Some((a, b))
            } else {
                None
            }
        },
    }
}

/// The icon name of the `i`-th metric card.
fn icon_name(i: usize) -> (r: &'static str)
    ensures
        r@ == metric_icon(i as int),
{
    if i == 0 {
        "zap"
    } else if i == 1 {
        "cpu"
    } else if i == 2 {
        "shield-check"
    } else {
        "activity"
    }
}

/// The metric cards of a prompt (see `routed_metrics`).
/// The `label: value` pairs of a prompt's comma-separated pieces.
fn prompt_pairs(prompt: &Vec<char>) -> (pairs: Vec<(Vec<char>, Vec<char>)>)
    ensures
        pairs@.map_values(|x: (Vec<char>, Vec<char>)| (x.0@, x.1@)) == pairs_of(split_on(prompt@, ',')),
{
    let pieces = split_chars(prompt, ',');
    let ghost ps = views(pieces@);
    let mut pairs: Vec<(Vec<char>, Vec<char>)> = Vec::new();
    let mut i: usize = 0;
    while i < pieces.len()
        invariant
            i <= pieces.len(),
            ps == views(pieces@),
            ps == split_on(prompt@, ','),
            pairs@.map_values(|x: (Vec<char>, Vec<char>)| (x.0@, x.1@)) == pairs_of(ps.take(i as int)),
        decreases pieces.len() - i,
    {
        let ghost before = pairs@.map_values(|x: (Vec<char>, Vec<char>)| (x.0@, x.1@));
        assert(ps.take(i + 1).drop_last() == ps.take(i as int));
        assert(ps.take(i + 1).last() == pieces@[i as int]@);
        match pair_from(&pieces[i]) {
            Some(x) => {
                pairs.push(x);
                assert(pairs@.map_values(|x: (Vec<char>, Vec<char>)| (x.0@, x.1@)) =~= pairs_of(ps.take(i + 1)));
            },
            None => {
                assert(pairs_of(ps.take(i + 1)) =~= before);
            },
        }
        i = i + 1;
    }
    assert(ps.take(pieces.len() as int) == ps);
    pairs
}

fn extract_metrics(prompt: &Vec<char>) -> (r: Vec<MetricCardSpec>)
    ensures
        r@.map_values(|m: MetricCardSpec| m@) == routed_metrics(prompt@),
{
    let pairs = prompt_pairs(prompt);
    let ghost pv = pairs@.map_values(|x: (Vec<char>, Vec<char>)| (x.0@, x.1@));
    let ghost want = first_n(pv, 4);
    let n = if pairs.len() < 4 { pairs.len() } else { 4 };
    assert(want.len() == n);
    let mut out: Vec<MetricCardSpec> = Vec::new();
    let mut j: usize = 0;
    while j < n
        invariant
            j <= n <= pairs.len(),
            n == want.len(),
            pv == pairs@.map_values(|x: (Vec<char>, Vec<char>)| (x.0@, x.1@)),
            want == first_n(pv, 4),
            out@.map_values(|m: MetricCardSpec| m@) == Seq::new(j as nat, |k: int| MetricView {
                label: want[k].0,
                value: want[k].1,
                icon: metric_icon(k),
            }),
        decreases n - j,
    {
        let label = string_of_chars(&pairs[j].0);
        let value = string_of_chars(&pairs[j].1);
        let icon = String::from_str(icon_name(j));
        assert(want[j as int] == pv[j as int]);
        assert(pv[j as int] == (pairs@[j as int].0@, pairs@[j as int].1@));
        let ghost old_out = out@.map_values(|m: MetricCardSpec| m@);
        let card = MetricCardSpec { label, value, icon };
        assert(card@ == MetricView { label: want[j as int].0, value: want[j as int].1, icon: metric_icon(j as int) });
        out.push(card);
        assert(out@.map_values(|m: MetricCardSpec| m@) =~= old_out.push(card@));
        j = j + 1;
        assert(out@.map_values(|m: MetricCardSpec| m@) =~= Seq::new(j as nat, |k: int| MetricView {
            label: want[k].0,
            value: want[k].1,
            icon: metric_icon(k),
        }));
    }
    out
}

/// The layout archetype identifier of `l` (see `layout_id_of`).
fn layout_id_from(l: &Vec<char>, t: LayoutType) -> (r: String)
    ensures
        r@ == layout_id_of(l@, t),
{
    let id = if contains(l, "hero") || contains(l, "quote") {
        "hero_quote"
    } else if contains(l, "snapshot") {
        "kpi_snapshot"
    } else if contains(l, "pricing") || contains(l, "price") {
        "pricing_table"
    } else if contains(l, "organization") || contains(l, "org chart") || contains(l, "hierarchy") {
        "org_hierarchy"
    } else if contains(l, "decision") {
        "decision_flow"
    } else if contains(l, "chart") && contains(l, "dashboard") {
        "chart_dashboard"
    } else {
        match t {
            LayoutType::ProcessTimeline => "process_timeline",
            LayoutType::StatisticalDashboard => "statistical_dashboard",
            LayoutType::ComparisonGrid => "comparison_grid",
            LayoutType::MindmapHierarchy => "mindmap_hierarchy",
        }
    };
    String::from_str(id)
}

/// `v` with its Thai digits written as ASCII digits.
fn to_ascii_digits(v: &Vec<char>) -> (r: Vec<char>)
    ensures
        r@ == ascii_digits(v@),
{
    let mut r: Vec<char> = Vec::new();
    let mut i: usize = 0;
    while i < v.len()
        invariant
            i <= v.len(),
            r@ == ascii_digits(v@.take(i as int)),
        decreases v.len() - i,
    {
        let c = v[i];
        let d = if '\u{0E50}' <= c && c <= '\u{0E59}' { ((c as u32 - 0x0E50 + 48) as u8) as char } else { c };
        r.push(d);
        assert(ascii_digits(v@.take(i + 1)) =~= ascii_digits(v@.take(i as int)).push(ascii_digit(c)));
        i = i + 1;
    }
    assert(v@.take(v.len() as int) == v@);
    r
}

/// The chart of a lower-cased prompt (see `routed_chart`).
fn extract_chart(l: &Vec<char>) -> (r: Option<PromptChart>)
    ensures
        match r {
            Some(c) => routed_chart(l@) == Some(c@),
            None => routed_chart(l@) is None,
        },
{
    if !(contains(l, "chart") || contains(l, "graph") || contains(l, "plot") || contains(l, "แผนภูมิ")
        || contains(l, "กราฟ")) {
        return None;
    }
    let pairs = prompt_pairs(l);
    let ghost pv = pairs@.map_values(|x: (Vec<char>, Vec<char>)| (x.0@, x.1@));
    let mut labels: Vec<String> = Vec::new();
    let mut values: Vec<String> = Vec::new();
    let mut i: usize = 0;
    while i < pairs.len()
        invariant
            i <= pairs.len(),
            pv == pairs@.map_values(|x: (Vec<char>, Vec<char>)| (x.0@, x.1@)),
            labels.len() == values.len(),
            labels.len() == numeric_pairs(pv.take(i as int)).len(),
            forall|k: int| 0 <= k < labels.len() ==> labels@[k]@ == numeric_pairs(pv.take(i as int))[k].0
                && values@[k]@ == numeric_pairs(pv.take(i as int))[k].1,
        decreases pairs.len() - i,
    {
        assert(pv.take(i + 1).drop_last() == pv.take(i as int));
        assert(pv.take(i + 1).last() == (pairs@[i as int].0@, pairs@[i as int].1@));
        if is_float(&pairs[i].1) {
            labels.push(string_of_chars(&pairs[i].0));
            values.push(string_of_chars(&pairs[i].1));
        }
        i = i + 1;
    }
    assert(pv.take(pairs.len() as int) == pv);
    if labels.len() < 2 {
        return None;
    }
    let chart_type = if contains(l, "stacked") {
        ChartType::StackedBar
    } else if contains(l, "donut") {
        ChartType::Donut
    } else if contains(l, "area") {
        ChartType::Area
    } else if contains(l, "line") {
        ChartType::Line
    } else if contains(l, "pie") {
        ChartType::Pie
    } else if contains(l, "scatter") {
        ChartType::Scatter
    } else if contains(l, "heatmap") {
        ChartType::Heatmap
    } else if contains(l, "gauge") {
        ChartType::Gauge
    } else {
        ChartType::Bar
    };
    let c = PromptChart { chart_type, labels, values };
    let ghost ps = numeric_pairs(pv);
    assert(c@.labels =~= ps.map_values(|p: (Seq<char>, Seq<char>)| p.0));
    assert(c@.values =~= ps.map_values(|p: (Seq<char>, Seq<char>)| p.1));
    Some(c)
}

/// The step count a word states, capped at nine (see `step_word`).
fn step_of(w: &Vec<char>) -> (r: Option<u8>)
    ensures
        match r {
            Some(n) => step_word(w@) is Some && n as nat == (if step_word(w@).unwrap() > 9 { 9 } else { step_word(w@).unwrap() }),
            None => step_word(w@) is None,
        },
{
    proof {
        reveal_strlit("-step");
    }
    if w.len() <= 5 {
        return None;
    }
    let k = w.len() - 5;
    if !(w[k] == '-' && w[k + 1] == 's' && w[k + 2] == 't' && w[k + 3] == 'e' && w[k + 4] == 'p') {
        assert(w@.skip(k as int) != "-step"@) by {
            if w@.skip(k as int) == "-step"@ {
                assert(w@.skip(k as int)[0] == w@[k as int]);
                assert(w@.skip(k as int)[1] == w@[k + 1]);
                assert(w@.skip(k as int)[2] == w@[k + 2]);
                assert(w@.skip(k as int)[3] == w@[k + 3]);
                assert(w@.skip(k as int)[4] == w@[k + 4]);
            }
        }
        return None;
    }
    assert(w@.skip(k as int) =~= "-step"@);
    let mut v: u8 = 0;
    let mut i: usize = 0;
    while i < k
        invariant
            i <= k < w.len(),
            k == w.len() - 5,
            all_digits(w@.take(i as int)),
            v as nat == (if digits_value(w@.take(i as int)) > 9 { 9 } else { digits_value(w@.take(i as int)) }),
        decreases k - i,
    {
        let c = w[i];
        assert(w@.take(i + 1).drop_last() == w@.take(i as int));
        assert(w@.take(i + 1).last() == c);
        if !('0' <= c && c <= '9') {
            assert(!all_digits(w@.take(k as int))) by {
                assert(w@.take(k as int)[i as int] == c);
            }
            return None;
        }
        let d = (c as u32 - 48) as u8;
        v = if v >= 9 || v * 10 + d > 9 { 9 } else { v * 10 + d };
        assert(all_digits(w@.take(i + 1))) by {
            assert forall|j: int| 0 <= j < i + 1 implies '0' <= #[trigger] w@.take(i + 1)[j] && w@.take(i + 1)[j] <= '9' by {
                if j < i {
                    assert(w@.take(i + 1)[j] == w@.take(i as int)[j]);
                }
            }
        }
        i = i + 1;
    }
    Some(v)
}

/// The first step count that a word of `ws` states.
fn first_step_of(ws: &Vec<Vec<char>>) -> (r: Option<u8>)
    ensures
        match r {
            Some(n) => first_step(views(ws@)) is Some
                && n as nat == (if first_step(views(ws@)).unwrap() > 9 { 9 } else { first_step(views(ws@)).unwrap() }),
            None => first_step(views(ws@)) is None,
        },
{
    let ghost wv = views(ws@);
    let mut i: usize = 0;
    assert(wv.skip(0) == wv);
    while i < ws.len()
        invariant
            i <= ws.len(),
            wv == views(ws@),
            first_step(wv) == first_step(wv.skip(i as int)),
        decreases ws.len() - i,
    {
        assert(wv.skip(i as int)[0] == ws@[i as int]@);
        assert(wv.skip(i as int).skip(1) =~= wv.skip(i + 1));
        match step_of(&ws[i]) {
            Some(n) => {
                return Some(n);
            },
            None => {},
        }
        i = i + 1;
    }
    None
}

/// The section cards of a lower-cased prompt (see `routed_sections`).
/// The Thai step count of `l` (see `thai_step`).
fn thai_step_of(l: &Vec<char>) -> (r: Option<u8>)
    ensures
        match r {
            Some(n) => thai_step(l@) == Some(n as nat),
            None => thai_step(l@) is None,
        },
{
    if contains(l, "หนึ่งขั้น") {
        Some(1u8)
    } else if contains(l, "สองขั้น") {
        Some(2u8)
    } else if contains(l, "สามขั้น") {
        Some(3u8)
    } else if contains(l, "สี่ขั้น") {
        Some(4u8)
    } else if contains(l, "ห้าขั้น") {
        Some(5u8)
    } else if contains(l, "หกขั้น") {
        Some(6u8)
    } else if contains(l, "เจ็ดขั้น") {
        Some(7u8)
    } else if contains(l, "แปดขั้น") {
        Some(8u8)
    } else if contains(l, "เก้าขั้น") {
        Some(9u8)
    } else {
        None
    }
}

fn step_sections(l: &Vec<char>) -> (r: Vec<SectionSpec>)
    ensures
        r@.map_values(|s: SectionSpec| s@) == routed_sections(l@),
{
    let ws = split_whitespace(l);
    let n: usize = match first_step_of(&ws) {
        Some(v) => if v < 2 { 2 } else if v > 8 { 8 } else { v as usize },
        None => match thai_step_of(l) {
            Some(v) => if v < 2 { 2 } else if v > 8 { 8 } else { v as usize },
            None => 4,
        },
    };
    assert(n == section_count(l@));
    let mut out: Vec<SectionSpec> = Vec::new();
    let mut i: usize = 0;
    while i < n
        invariant
            i <= n <= 8,
            n == section_count(l@),
            out@.map_values(|s: SectionSpec| s@) == routed_sections(l@).take(i as int),
        decreases n - i,
    {
        let mut title = String::from_str("Step ");
        push_dec(&mut title, (i + 1) as u64);
        let sec = SectionSpec { step_number: i + 1, title, description: String::new() };
        let ghost before = out@.map_values(|s: SectionSpec| s@);
        assert(sec@ == routed_sections(l@)[i as int]);
        out.push(sec);
        assert(out@.map_values(|s: SectionSpec| s@) =~= before.push(sec@));
        assert(routed_sections(l@).take(i + 1) =~= routed_sections(l@).take(i as int).push(routed_sections(l@)[i as int]));
        i = i + 1;
    }
    assert(routed_sections(l@).take(n as int) =~= routed_sections(l@));
    out
}

impl InfographicIntentRouter {
    /// A router with the default pruner bounds.
    pub fn new() -> (r: Self)
        ensures
            r.pruner.max_sections == 8,
            r.pruner.max_metrics == 4,
            r.pruner.max_title_len == 80,
    {
        InfographicIntentRouter { pruner: InfographicConstraintPruner::default() }
    }

    /// Parses a free-text prompt into a layout specification: layout, theme
    /// and aspect ratio by keyword on the lower-cased prompt, title from its
    /// first six words, chrome text in the prompt's language.
    pub fn parse_and_route(&self, prompt: &str) -> (spec: InfographicLayoutSpec)
        ensures
            spec@ == route(prompt@),
    {
        let lower_s = to_lowercase(prompt);
        let l = str_chars(lower_s.as_str());

        let layout_type = if contains(&l, "timeline") || contains(&l, "step") || contains(&l, "roadmap") || contains(&l, "process") || contains(&l, "ไทม์ไลน์") || contains(&l, "ขั้นตอน") || contains(&l, "กระบวนการ") || contains(&l, "แผนงาน") {
            LayoutType::ProcessTimeline
        } else if contains(&l, "dashboard") || contains(&l, "stat") || contains(&l, "metric") || contains(&l, "kpi") || contains(&l, "แดชบอร์ด") || contains(&l, "สถิติ") || contains(&l, "ตัวชี้วัด") {
            LayoutType::StatisticalDashboard
        } else if contains(&l, "compare") || contains(&l, "vs") || contains(&l, "feature") || contains(&l, "matrix") || contains(&l, "เปรียบเทียบ") || contains(&l, "ฟีเจอร์") {
            LayoutType::ComparisonGrid
        } else {
            LayoutType::MindmapHierarchy
        };

        let theme = if contains(&l, "navy") || contains(&l, "finance") || contains(&l, "bank") || contains(&l, "การเงิน") || contains(&l, "น้ำเงิน") || contains(&l, "ธนาคาร") {
            PaletteTheme::FinancialNavy
        } else if contains(&l, "warm") || contains(&l, "coral") || contains(&l, "creative") || contains(&l, "สร้างสรรค์") || contains(&l, "ปะการัง") || contains(&l, "อบอุ่น") {
            PaletteTheme::VibrantCoral
        } else if contains(&l, "academic") || contains(&l, "paper") || contains(&l, "gold") || contains(&l, "วิชาการ") || contains(&l, "ทอง") {
            PaletteTheme::AcademicWarm
        } else if contains(&l, "ocean") || contains(&l, "breeze") || contains(&l, "sea") || contains(&l, "ทะเล") || contains(&l, "มหาสมุทร") {
            PaletteTheme::OceanBreeze
        } else if contains(&l, "sunset") || contains(&l, "glow") || contains(&l, "orange") || contains(&l, "พระอาทิตย์ตก") || contains(&l, "สีส้ม") {
            PaletteTheme::SunsetGlow
        } else if contains(&l, "forest") || contains(&l, "eco") || contains(&l, "mint") || contains(&l, "green") || contains(&l, "ธรรมชาติ") || contains(&l, "สีเขียว") || contains(&l, "ป่าไม้") {
            PaletteTheme::ForestMint
        } else if contains(&l, "monochrome") || contains(&l, "minimal") || contains(&l, "grayscale") || contains(&l, "ขาวดำ") {
            PaletteTheme::Monochrome
        } else {
            PaletteTheme::TechDark
        };

        let requested = if contains(&l, "banner") || contains(&l, "header") || contains(&l, "landscape") || contains(&l, "แบนเนอร์") || contains(&l, "แนวนอน") {
            AspectRatio::Banner16_9
        } else if contains(&l, "square") || contains(&l, "post") || contains(&l, "จัตุรัส") || contains(&l, "โพสต์") {
            AspectRatio::Square1_1
        } else {
            AspectRatio::A4Poster
        };
        let aspect_ratio = if layout_type.allows(requested) { requested } else { AspectRatio::A4Poster };

        let title = match extract_title(&l) {
            Some(t) => {
                let cut = if t.len() <= 80 { t } else { copy_range(&t, 0, 80) };
                string_of_chars(&cut)
            },
            None => String::from_str("SYSTEM ARCHITECTURE INFOGRAPHIC"),
        };
        let lang = detect_lang(prompt);
        let subtitle = Some(String::from_str(Strs::subtitle(lang)));

        let pc = str_chars(prompt);
        let pd = to_ascii_digits(&pc);
        let metrics = extract_metrics(&pd);

        let sections = step_sections(&l);

        let spec = InfographicLayoutSpec {
            layout_type,
            theme,
            aspect_ratio,
            title,
            subtitle,
            metrics,
            sections,
            footer_note: Some(String::from_str(Strs::footer(lang))),
            chart: extract_chart(&to_ascii_digits(&l)),
            layout_id: layout_id_from(&l, layout_type),
            lang,
        };
        assert(spec@.metrics =~= routed_metrics(ascii_digits(prompt@)));
        assert(spec@.sections =~= routed_sections(l@));
        spec
    }
}


/// The SVG prologue: root element, style sheet, background gradient.
pub open spec fn svg_head(w: nat, h: nat, c: (Seq<char>, Seq<char>, Seq<char>, Seq<char>, Seq<char>), thai: bool, inter_b64: Seq<char>, thai_b64: Seq<char>) -> Seq<char> {
    "<svg xmlns=\"http://www.w3.org/2000/svg\" viewBox=\"0 0 "@ + dec(w) + " "@ + dec(h) + "\" width=\""@
        + dec(w) + "\" height=\""@ + dec(h) + "\">\n"@ + "<defs>\n  <style>\n"@
        + font_style_text(thai, inter_b64, thai_b64)
        + "    text { font-family: "@ + font_stack_text(thai) + "; }\n"@
        + "    .title { font-size: 28px; font-weight: 800; fill: "@ + c.4 + "; }\n"@
        + "    .subtitle { font-size: 14px; font-weight: 400; fill: #9CA3AF; }\n"@
        + "    .card-title { font-size: 16px; font-weight: 600; fill: "@ + c.4 + "; }\n"@
        + "    .card-desc { font-size: 12px; font-weight: 400; fill: #9CA3AF; }\n"@
        + "    .metric-val { font-size: 24px; font-weight: 800; fill: "@ + c.2 + "; }\n"@
        + "    .metric-lbl { font-size: 11px; font-weight: 600; fill: #9CA3AF; letter-spacing: 0.5px; }\n"@
        + "    .badge { font-size: 12px; font-weight: 800; fill: "@ + c.0 + "; }\n"@ + "  </style>\n"@
        + "  <linearGradient id=\"bg-grad\" x1=\"0%\" y1=\"0%\" x2=\"100%\" y2=\"100%\">\n    <stop offset=\"0%\" stop-color=\""@
        + c.0 + "\" />\n    <stop offset=\"100%\" stop-color=\""@ + c.1
        + "\" />\n  </linearGradient>\n</defs>\n"@
        + "<rect width=\"100%\" height=\"100%\" fill=\"url(#bg-grad)\" />\n"@
}

/// The title group: accent bar, title and subtitle.
pub open spec fn svg_title_block(accent1: Seq<char>, title: Seq<char>, sub: Seq<char>) -> Seq<char> {
    "<g transform=\"translate(40, 50)\">\n  <rect x=\"0\" y=\"0\" width=\"8\" height=\"48\" rx=\"4\" fill=\""@ + accent1
        + "\" />\n  <text x=\"24\" y=\"28\" class=\"title\">"@ + svg_escape(title)
        + "</text>\n  <text x=\"24\" y=\"48\" class=\"subtitle\">"@ + svg_escape(sub) + "</text>\n</g>\n"@
}

/// One metric card at horizontal offset `x`.
pub open spec fn svg_metric_card(x: nat, card_w: nat, card_bg: Seq<char>, value: Seq<char>, label: Seq<char>) -> Seq<char> {
    "<g transform=\"translate("@ + dec(x) + ", 130)\">\n  <rect width=\""@ + dec(card_w)
        + "\" height=\"80\" rx=\"12\" fill=\""@ + card_bg
        + "\" stroke=\"#1F2937\" stroke-width=\"1\" />\n  <text x=\"16\" y=\"36\" class=\"metric-val\">"@ + svg_escape(value)
        + "</text>\n  <text x=\"16\" y=\"58\" class=\"metric-lbl\">"@ + svg_escape(label) + "</text>\n</g>\n"@
}

/// The first `k` metric cards.
pub open spec fn svg_metric_cards(ms: Seq<MetricView>, k: nat, card_w: nat, card_bg: Seq<char>) -> Seq<char>
    decreases k,
{
    if k == 0 {
        seq![]
    } else {
        let i = (k - 1) as nat;
        svg_metric_cards(ms, i, card_w, card_bg)
            + svg_metric_card(40 + i * (card_w + 16), card_w, card_bg, ms[i as int].value, uppercase(ms[i as int].label))
    }
}

/// The dashed connector between two consecutive section cards.
pub open spec fn svg_connector(y1: nat, y2: nat, accent1: Seq<char>) -> Seq<char> {
    "<line x1=\"72\" y1=\""@ + dec(y1) + "\" x2=\"72\" y2=\""@ + dec(y2) + "\" stroke=\""@ + accent1
        + "\" stroke-width=\"2\" stroke-dasharray=\"4 4\" opacity=\"0.6\" />\n"@
}

/// One section card at vertical offset `y`.
pub open spec fn svg_section_card(y: nat, width: nat, card_bg: Seq<char>, accent1: Seq<char>, s: SectionView) -> Seq<char> {
    "<g transform=\"translate(40, "@ + dec(y) + ")\">\n  <rect width=\""@ + dec(width) + "\" height=\""@ + "100"@
        + "\" rx=\"12\" fill=\""@ + card_bg
        + "\" stroke=\"#1F2937\" stroke-width=\"1\" />\n  <circle cx=\"32\" cy=\"36\" r=\"16\" fill=\""@ + accent1
        + "\" />\n  <text x=\"32\" y=\"41\" text-anchor=\"middle\" class=\"badge\">"@ + dec(s.step_number)
        + "</text>\n  <text x=\"64\" y=\"32\" class=\"card-title\">"@ + svg_escape(s.title)
        + "</text>\n  <text x=\"64\" y=\"54\" class=\"card-desc\">"@ + svg_escape(s.description) + "</text>\n</g>\n"@
}

/// Section `i`: its connector to the next card (all but the last) and its card.
pub open spec fn svg_section(ss: Seq<SectionView>, i: nat, width: nat, card_bg: Seq<char>, accent1: Seq<char>) -> Seq<char> {
    let y = 240 + i * 116;
    (if i + 1 < ss.len() { svg_connector(y + 48, y + 116, accent1) } else { seq![] })
        + svg_section_card(y, width, card_bg, accent1, ss[i as int])
}

/// The first `k` sections.
pub open spec fn svg_sections(ss: Seq<SectionView>, k: nat, width: nat, card_bg: Seq<char>, accent1: Seq<char>) -> Seq<char>
    decreases k,
{
    if k == 0 {
        seq![]
    } else {
        let i = (k - 1) as nat;
        svg_sections(ss, i, width, card_bg, accent1) + svg_section(ss, i, width, card_bg, accent1)
    }
}

/// The centered footer line.
pub open spec fn svg_footer(w: nat, h: nat, footer: Option<Seq<char>>) -> Seq<char> {
    match footer {
        Some(f) => "<text x=\""@ + dec(w / 2) + "\" y=\""@ + dec((h - 40) as nat)
            + "\" text-anchor=\"middle\" font-size=\"11\" fill=\"#6B7280\">"@ + svg_escape(f) + "</text>\n"@,
        None => seq![],
    }
}

/// Width of each metric card when `n` cards share a canvas of width `w`.
pub open spec fn metric_card_width(w: int, n: int) -> int {
    (w - 80 - (n - 1) * 16) / n
}

/// The whole SVG document for a specification, with the font faces of
/// these base64 payloads embedded.
pub open spec fn svg_document(s: LayoutSpecView, inter_b64: Seq<char>, thai_b64: Seq<char>) -> Seq<char> {
    let (w, h) = dims(s.aspect_ratio);
    let c = theme_colors(s.theme);
    let n = s.metrics.len();
    let card_w = if n == 0 { 0 } else { metric_card_width(w, n as int) as nat };
    let sub = match s.subtitle { Some(t) => t, None => seq![] };
    svg_head(w as nat, h as nat, c, text_needs_thai(s), inter_b64, thai_b64) + svg_title_block(c.2, s.title, sub)
        + svg_metric_cards(s.metrics, n, card_w, c.1)
        + svg_sections(s.sections, s.sections.len(), (w - 80) as nat, c.1, c.2)
        + svg_footer(w as nat, h as nat, s.footer_note) + "</svg>"@
}

/// A specification the fixed-layout renderer draws without arithmetic overflow:
/// the metric cards, if any, fitting the canvas width, and the section stack
/// within `u32` coordinates.
pub open spec fn renderable(s: LayoutSpecView) -> bool {
    let (w, h) = dims(s.aspect_ratio);
    &&& (s.metrics.len() == 0 || 80 + (s.metrics.len() - 1) * 16 <= w)
    &&& (s.sections.len() == 0 || 240 + (s.sections.len() - 1) * 116 <= u32::MAX)
}

#[verifier::spinoff_prover]
#[verifier::rlimit(80)]
fn push_svg_head(out: &mut String, w: u32, h: u32, c: (&str, &str, &str, &str, &str), thai: bool, inter_b64: &str, thai_b64: &str)
    ensures
        final(out)@ == old(out)@ + svg_head(w as nat, h as nat, (c.0@, c.1@, c.2@, c.3@, c.4@), thai, inter_b64@, thai_b64@),
{
    let ghost start = out@;
    push_str(out, "<svg xmlns=\"http://www.w3.org/2000/svg\" viewBox=\"0 0 ");
    push_dec(out, w as u64);
    push_str(out, " ");
    push_dec(out, h as u64);
    push_str(out, "\" width=\"");
    push_dec(out, w as u64);
    push_str(out, "\" height=\"");
    push_dec(out, h as u64);
    push_str(out, "\">\n");
    push_str(out, "<defs>\n  <style>\n");
    let fonts = font_style_block(thai, inter_b64, thai_b64);
    push_str(out, fonts.as_str());
    push_str(out, "    text { font-family: ");
    let stack = font_stack(thai);
    push_str(out, stack.as_str());
    push_str(out, "; }\n");
    push_str(out, "    .title { font-size: 28px; font-weight: 800; fill: ");
    push_str(out, c.4);
    push_str(out, "; }\n");
    push_str(out, "    .subtitle { font-size: 14px; font-weight: 400; fill: #9CA3AF; }\n");
    push_str(out, "    .card-title { font-size: 16px; font-weight: 600; fill: ");
    push_str(out, c.4);
    push_str(out, "; }\n");
    push_str(out, "    .card-desc { font-size: 12px; font-weight: 400; fill: #9CA3AF; }\n");
    push_str(out, "    .metric-val { font-size: 24px; font-weight: 800; fill: ");
    push_str(out, c.2);
    push_str(out, "; }\n");
    push_str(out, "    .metric-lbl { font-size: 11px; font-weight: 600; fill: #9CA3AF; letter-spacing: 0.5px; }\n");
    push_str(out, "    .badge { font-size: 12px; font-weight: 800; fill: ");
    push_str(out, c.0);
    push_str(out, "; }\n");
    push_str(out, "  </style>\n");
    push_str(out, "  <linearGradient id=\"bg-grad\" x1=\"0%\" y1=\"0%\" x2=\"100%\" y2=\"100%\">\n    <stop offset=\"0%\" stop-color=\"");
    push_str(out, c.0);
    push_str(out, "\" />\n    <stop offset=\"100%\" stop-color=\"");
    push_str(out, c.1);
    push_str(out, "\" />\n  </linearGradient>\n</defs>\n");
    push_str(out, "<rect width=\"100%\" height=\"100%\" fill=\"url(#bg-grad)\" />\n");
    assert(out@ =~= start + svg_head(w as nat, h as nat, (c.0@, c.1@, c.2@, c.3@, c.4@), thai, inter_b64@, thai_b64@));
}

fn push_svg_title_block(out: &mut String, accent1: &str, title: &str, sub: &str)
    ensures
        final(out)@ == old(out)@ + svg_title_block(accent1@, title@, sub@),
{
    let ghost start = out@;
    push_str(out, "<g transform=\"translate(40, 50)\">\n  <rect x=\"0\" y=\"0\" width=\"8\" height=\"48\" rx=\"4\" fill=\"");
    push_str(out, accent1);
    push_str(out, "\" />\n  <text x=\"24\" y=\"28\" class=\"title\">");
    push_escaped_svg(out, title);
    push_str(out, "</text>\n  <text x=\"24\" y=\"48\" class=\"subtitle\">");
    push_escaped_svg(out, sub);
    push_str(out, "</text>\n</g>\n");
    assert(out@ =~= start + svg_title_block(accent1@, title@, sub@));
}

fn push_svg_metric_card(out: &mut String, x: u32, card_w: u32, card_bg: &str, value: &str, label: &str)
    ensures
        final(out)@ == old(out)@ + svg_metric_card(x as nat, card_w as nat, card_bg@, value@, label@),
{
    let ghost start = out@;
    push_str(out, "<g transform=\"translate(");
    push_dec(out, x as u64);
    push_str(out, ", 130)\">\n  <rect width=\"");
    push_dec(out, card_w as u64);
    push_str(out, "\" height=\"80\" rx=\"12\" fill=\"");
    push_str(out, card_bg);
    push_str(out, "\" stroke=\"#1F2937\" stroke-width=\"1\" />\n  <text x=\"16\" y=\"36\" class=\"metric-val\">");
    push_escaped_svg(out, value);
    push_str(out, "</text>\n  <text x=\"16\" y=\"58\" class=\"metric-lbl\">");
    push_escaped_svg(out, label);
    push_str(out, "</text>\n</g>\n");
    assert(out@ =~= start + svg_metric_card(x as nat, card_w as nat, card_bg@, value@, label@));
}

fn push_svg_connector(out: &mut String, y1: u32, y2: u32, accent1: &str)
    ensures
        final(out)@ == old(out)@ + svg_connector(y1 as nat, y2 as nat, accent1@),
{
    let ghost start = out@;
    push_str(out, "<line x1=\"72\" y1=\"");
    push_dec(out, y1 as u64);
    push_str(out, "\" x2=\"72\" y2=\"");
    push_dec(out, y2 as u64);
    push_str(out, "\" stroke=\"");
    push_str(out, accent1);
    push_str(out, "\" stroke-width=\"2\" stroke-dasharray=\"4 4\" opacity=\"0.6\" />\n");
    assert(out@ =~= start + svg_connector(y1 as nat, y2 as nat, accent1@));
}

fn push_svg_section_card(out: &mut String, y: u32, width: u32, card_bg: &str, accent1: &str, s: &SectionSpec)
    ensures
        final(out)@ == old(out)@ + svg_section_card(y as nat, width as nat, card_bg@, accent1@, s@),
{
    let ghost start = out@;
    push_str(out, "<g transform=\"translate(40, ");
    push_dec(out, y as u64);
    push_str(out, ")\">\n  <rect width=\"");
    push_dec(out, width as u64);
    push_str(out, "\" height=\"");
    push_str(out, "100");
    push_str(out, "\" rx=\"12\" fill=\"");
    push_str(out, card_bg);
    push_str(out, "\" stroke=\"#1F2937\" stroke-width=\"1\" />\n  <circle cx=\"32\" cy=\"36\" r=\"16\" fill=\"");
    push_str(out, accent1);
    push_str(out, "\" />\n  <text x=\"32\" y=\"41\" text-anchor=\"middle\" class=\"badge\">");
    push_dec(out, s.step_number as u64);
    push_str(out, "</text>\n  <text x=\"64\" y=\"32\" class=\"card-title\">");
    push_escaped_svg(out, s.title.as_str());
    push_str(out, "</text>\n  <text x=\"64\" y=\"54\" class=\"card-desc\">");
    push_escaped_svg(out, s.description.as_str());
    push_str(out, "</text>\n</g>\n");
    assert(out@ =~= start + svg_section_card(y as nat, width as nat, card_bg@, accent1@, s@));
}

/// Native SVG vector renderer with a fixed layout.
pub struct SVGVectorRenderer;

impl SVGVectorRenderer {
    /// Whether `render` can draw `spec`: the metric cards, if any, fitting the
    /// canvas width, the section stack within `u32` coordinates.
    pub fn can_render(spec: &InfographicLayoutSpec) -> (r: bool)
        ensures
            r == renderable(spec@),
    {
        let (w, _h) = spec.aspect_ratio.dimensions();
        let n = spec.metrics.len();
        let s = spec.sections.len();
        (n == 0 || (n - 1) as u128 * 16 + 80 <= w as u128) && (s == 0 || (s - 1) as u128 * 116 + 240 <= 0xFFFF_FFFF)
    }

    /// Renders a standalone SVG document for `spec`: header and style sheet
    /// (the font faces of `inter_b64` and, for non-ASCII text, `thai_b64`),
    /// title block, one card per metric in a row, one card per section in a
    /// column joined by dashed connectors, and the footer; every text taken
    /// from the specification is SVG-escaped.
    #[verifier::spinoff_prover]
    #[verifier::rlimit(60)]
    pub fn render(spec: &InfographicLayoutSpec, inter_b64: &str, thai_b64: &str) -> (svg: String)
        requires
            renderable(spec@),
        ensures
            svg@ == svg_document(spec@, inter_b64@, thai_b64@),
    {
        let (width, height) = spec.aspect_ratio.dimensions();
        let colors = spec.theme.colors();
        let (bg, card_bg, accent1, _accent2, text_color) = colors;
        let ghost sv = spec@;
        let ghost c = theme_colors(spec.theme);

        let mut svg = String::new();
        let thai = needs_thai(spec);
        push_svg_head(&mut svg, width, height, colors, thai, inter_b64, thai_b64);
        let sub: &str = match &spec.subtitle {
            Some(t) => t.as_str(),
            None => "",
        };
        proof {
            reveal_strlit("");
        }
        push_svg_title_block(&mut svg, accent1, spec.title.as_str(), sub);

        let n = spec.metrics.len() as u32;
        let card_w = if n == 0 { 0 } else { (width - 80 - (n - 1) * 16) / n };
        proof {
            if n > 0 {
                assert(card_w as int == metric_card_width(width as int, n as int));
                let wi = width as int;
                let ni = n as int;
                let cw = card_w as int;
                assert((ni - 1) * (cw + 16) + cw <= wi - 80) by (nonlinear_arith)
                    requires
                        ni >= 1,
                        cw == (wi - 80 - (ni - 1) * 16) / ni,
                        80 + (ni - 1) * 16 <= wi;
            }
        }
        let ghost head = svg@;
        let mut i: usize = 0;
        while i < spec.metrics.len()
            invariant
                i <= spec.metrics.len(),
                n as int == spec.metrics@.len(),
                n == 0 || (n - 1) * (card_w + 16) + card_w <= width - 80,
                width as int == dims(sv.aspect_ratio).0,
                sv == spec@,
                card_bg@ == c.1,
                svg@ == head + svg_metric_cards(sv.metrics, i as nat, card_w as nat, c.1),
            decreases spec.metrics.len() - i,
        {
            let m = &spec.metrics[i];
            assert(i * (card_w + 16) <= (n - 1) * (card_w + 16)) by (nonlinear_arith)
                requires i < n;
            let x = 40 + (i as u32) * (card_w + 16);
            let lbl_upper = to_uppercase(m.label.as_str());
            push_svg_metric_card(&mut svg, x, card_w, card_bg, m.value.as_str(), lbl_upper.as_str());
            assert(sv.metrics[i as int] == m@);
            i = i + 1;
        }

        let card_w_full = width - 80;
        let ghost mid = svg@;
        let ns = spec.sections.len();
        let mut j: usize = 0;
        while j < ns
            invariant
                j <= ns,
                ns == spec.sections@.len(),
                sv == spec@,
                card_w_full as int == dims(sv.aspect_ratio).0 - 80,
                ns == 0 || 240 + (ns - 1) * 116 <= u32::MAX,
                card_bg@ == c.1,
                accent1@ == c.2,
                svg@ == mid + svg_sections(sv.sections, j as nat, card_w_full as nat, c.1, c.2),
            decreases ns - j,
        {
            let s = &spec.sections[j];
            let y = 240 + (j as u32) * 116;
            let ghost before = svg@;
            if j < ns - 1 {
                let line_y1 = y + 48;
                let line_y2 = y + 116;
                push_svg_connector(&mut svg, line_y1, line_y2, accent1);
            }
            push_svg_section_card(&mut svg, y, card_w_full, card_bg, accent1, s);
            assert(sv.sections[j as int] == s@);
            assert(svg@ =~= before + svg_section(sv.sections, j as nat, card_w_full as nat, c.1, c.2));
            j = j + 1;
        }

        let ghost tail_start = svg@;
        if let Some(footer) = &spec.footer_note {
            let footer_y = height - 40;
            let center_x = width / 2;
            push_str(&mut svg, "<text x=\"");
            push_dec(&mut svg, center_x as u64);
            push_str(&mut svg, "\" y=\"");
            push_dec(&mut svg, footer_y as u64);
            push_str(&mut svg, "\" text-anchor=\"middle\" font-size=\"11\" fill=\"#6B7280\">");
            push_escaped_svg(&mut svg, footer.as_str());
            push_str(&mut svg, "</text>\n");
        }
        assert(svg@ =~= tail_start + svg_footer(width as nat, height as nat, sv.footer_note));
        push_str(&mut svg, "</svg>");
        assert(svg@ =~= svg_document(sv, inter_b64@, thai_b64@));
        svg
    }
}


/// `w` stands in `s` as a run of consecutive characters.
pub open spec fn is_piece(s: Seq<char>, w: Seq<char>) -> bool {
    exists|a: int| 0 <= a && a + w.len() <= s.len() && #[trigger] s.subrange(a, a + w.len()) == w
}

/// The front part of a concatenation stands in it.
pub(crate) proof fn lemma_piece_left(a: Seq<char>, b: Seq<char>)
    ensures
        is_piece(a + b, a),
{
    assert((a + b).subrange(0int, 0int + a.len()) =~= a);
}

/// The back part of a concatenation stands in it.
pub(crate) proof fn lemma_piece_right(a: Seq<char>, b: Seq<char>)
    ensures
        is_piece(a + b, b),
{
    assert((a + b).subrange(a.len() as int, (a.len() + b.len()) as int) =~= b);
}

pub(crate) proof fn lemma_piece_trans(s: Seq<char>, t: Seq<char>, w: Seq<char>)
    requires
        is_piece(s, t),
        is_piece(t, w),
    ensures
        is_piece(s, w),
{
    let a = choose|a: int| 0 <= a && a + t.len() <= s.len() && #[trigger] s.subrange(a, a + t.len()) == t;
    let b = choose|b: int| 0 <= b && b + w.len() <= t.len() && #[trigger] t.subrange(b, b + w.len()) == w;
    assert(s.subrange(a + b, a + b + w.len()) =~= w);
}

proof fn lemma_piece_of_prefix(s: Seq<char>, n: int, w: Seq<char>)
    requires
        0 <= n <= s.len(),
        is_piece(s.take(n), w),
    ensures
        is_piece(s, w),
{
    let a = choose|a: int| 0 <= a && a + w.len() <= s.take(n).len() && #[trigger] s.take(n).subrange(a, a + w.len()) == w;
    assert(s.subrange(a, a + w.len()) =~= w);
}

proof fn lemma_piece_of_suffix(s: Seq<char>, n: int, w: Seq<char>)
    requires
        0 <= n <= s.len(),
        is_piece(s.skip(n), w),
    ensures
        is_piece(s, w),
{
    let a = choose|a: int| 0 <= a && a + w.len() <= s.skip(n).len() && #[trigger] s.skip(n).subrange(a, a + w.len()) == w;
    assert(s.subrange(n + a, n + a + w.len()) =~= w);
}

/// Every word of `s` stands in `s`; the last word of a text that ends in a
/// non-space character ends the text.
proof fn lemma_words_pieces(s: Seq<char>)
    ensures
        forall|k: int| 0 <= k < words(s).len() ==> is_piece(s, #[trigger] words(s)[k]),
        s.len() > 0 && !is_ws(s.last()) ==> words(s).len() > 0
            && words(s).last().len() <= s.len()
            && s.subrange(s.len() - words(s).last().len(), s.len() as int) == words(s).last(),
    decreases s.len(),
{
    if s.len() > 0 {
        let p = s.drop_last();
        let c = s.last();
        lemma_words_pieces(p);
        assert forall|k: int| 0 <= k < words(p).len() implies is_piece(s, #[trigger] words(p)[k]) by {
            assert(s.take(p.len() as int) == p);
            lemma_piece_of_prefix(s, p.len() as int, words(p)[k]);
        }
        if is_ws(c) {
        } else if p.len() > 0 && !is_ws(p.last()) {
            let w = words(p);
            let lw = w.last().push(c);
            let n = lw.len();
            assert(s.subrange(s.len() - n, s.len() as int) =~= lw);
            assert forall|k: int| 0 <= k < words(s).len() implies is_piece(s, #[trigger] words(s)[k]) by {
                if k == w.len() - 1 {
                    assert(s.subrange(s.len() - n, s.len() - n + lw.len()) == lw);
                }
            }
        } else {
            assert(s.subrange(s.len() - 1, s.len() as int) =~= seq![c]);
            assert forall|k: int| 0 <= k < words(s).len() implies is_piece(s, #[trigger] words(s)[k]) by {
                if k == words(p).len() {
                    assert(s.subrange(s.len() - 1, s.len() - 1 + 1) == seq![c]);
                }
            }
        }
    }
}

/// Every piece of `s` split at `sep` stands in `s`; the last piece ends it.
proof fn lemma_split_pieces(s: Seq<char>, sep: char)
    ensures
        split_on(s, sep).len() >= 1,
        forall|k: int| 0 <= k < split_on(s, sep).len() ==> is_piece(s, #[trigger] split_on(s, sep)[k]),
        split_on(s, sep).last().len() <= s.len(),
        s.subrange(s.len() - split_on(s, sep).last().len(), s.len() as int) == split_on(s, sep).last(),
    decreases s.len(),
{
    if s.len() == 0 {
        assert(s.subrange(0, 0) =~= Seq::<char>::empty());
        assert(is_piece(s, Seq::<char>::empty())) by {
            assert(s.subrange(0, 0) =~= Seq::<char>::empty());
        }
    } else {
        let p = s.drop_last();
        let c = s.last();
        lemma_split_pieces(p, sep);
        let ps = split_on(p, sep);
        assert forall|k: int| 0 <= k < ps.len() implies is_piece(s, #[trigger] ps[k]) by {
            assert(s.take(p.len() as int) == p);
            lemma_piece_of_prefix(s, p.len() as int, ps[k]);
        }
        if c == sep {
            assert(s.subrange(s.len() as int, s.len() as int) =~= Seq::<char>::empty());
            assert forall|k: int| 0 <= k < split_on(s, sep).len() implies is_piece(s, #[trigger] split_on(s, sep)[k]) by {
                if k == ps.len() {
                    assert(s.subrange(s.len() as int, (s.len() + 0) as int) == Seq::<char>::empty());
                }
            }
        } else {
            let lw = ps.last().push(c);
            let n = lw.len();
            assert(s.subrange(s.len() - n, s.len() as int) =~= lw);
            assert forall|k: int| 0 <= k < split_on(s, sep).len() implies is_piece(s, #[trigger] split_on(s, sep)[k]) by {
                if k == ps.len() - 1 {
                    assert(s.subrange(s.len() - n, s.len() - n + lw.len()) == lw);
                }
            }
        }
    }
}

/// The value of a piece's pair stands in the piece.
proof fn lemma_pair_value_piece(q: Seq<char>)
    requires
        pair_of(q) is Some,
    ensures
        is_piece(q, pair_of(q).unwrap().1),
{
    let k = last_colon(q);
    assert(0 <= k < q.len()) by {
        lemma_last_colon_range(q);
    }
    let r = q.skip(k + 1);
    lemma_words_pieces(r);
    assert(is_piece(r, words(r)[0]));
    lemma_piece_of_suffix(q, k + 1, words(r)[0]);
}

proof fn lemma_last_colon_range(q: Seq<char>)
    ensures
        -1 <= last_colon(q) < q.len(),
    decreases q.len(),
{
    if q.len() > 0 && q.last() != ':' {
        lemma_last_colon_range(q.drop_last());
    }
}

/// Every pair's value stands in one of the pieces.
proof fn lemma_pairs_values(ps: Seq<Seq<char>>, s: Seq<char>)
    requires
        forall|k: int| 0 <= k < ps.len() ==> is_piece(s, #[trigger] ps[k]),
    ensures
        forall|i: int| 0 <= i < pairs_of(ps).len() ==> is_piece(s, #[trigger] pairs_of(ps)[i].1),
    decreases ps.len(),
{
    if ps.len() > 0 {
        let p0 = ps.drop_last();
        assert forall|k: int| 0 <= k < p0.len() implies is_piece(s, #[trigger] p0[k]) by {
            assert(p0[k] == ps[k]);
        }
        lemma_pairs_values(p0, s);
        match pair_of(ps.last()) {
            Some(x) => {
                lemma_pair_value_piece(ps.last());
                assert(is_piece(s, ps[ps.len() - 1]));
                lemma_piece_trans(s, ps.last(), x.1);
                assert forall|i: int| 0 <= i < pairs_of(ps).len() implies is_piece(s, #[trigger] pairs_of(ps)[i].1) by {
                    if i < pairs_of(p0).len() {
                        assert(pairs_of(ps)[i] == pairs_of(p0)[i]);
                    }
                }
            },
            None => {
                assert(pairs_of(ps) =~= pairs_of(p0));
            },
        }
    }
}

/// Keeping the numeric pairs keeps values that stand in `s`.
proof fn lemma_numeric_values(ps: Seq<(Seq<char>, Seq<char>)>, s: Seq<char>)
    requires
        forall|i: int| 0 <= i < ps.len() ==> is_piece(s, #[trigger] ps[i].1),
    ensures
        forall|i: int| 0 <= i < numeric_pairs(ps).len() ==> is_piece(s, #[trigger] numeric_pairs(ps)[i].1),
    decreases ps.len(),
{
    if ps.len() > 0 {
        let p0 = ps.drop_last();
        assert forall|i: int| 0 <= i < p0.len() implies is_piece(s, #[trigger] p0[i].1) by {
            assert(p0[i] == ps[i]);
        }
        lemma_numeric_values(p0, s);
        assert(is_piece(s, ps[ps.len() - 1].1));
        assert forall|i: int| 0 <= i < numeric_pairs(ps).len() implies is_piece(s, #[trigger] numeric_pairs(ps)[i].1) by {
            if i < numeric_pairs(p0).len() {
                assert(numeric_pairs(ps)[i] == numeric_pairs(p0)[i]);
            }
        }
    }
}

/// Every routed specification stays within the default pruner's bounds: at
/// most four metric cards, at most eight sections numbered 1, 2, ... in
/// order, and a title of at most eighty characters; and no value is
/// invented: each metric value stands in the prompt as it was written (Thai
/// digits read as ASCII digits), and each chart value in the lower-cased
/// prompt.
pub proof fn lemma_route_within_bounds(prompt: Seq<char>)
    ensures
        route(prompt).metrics.len() <= 4,
        route(prompt).sections.len() <= 8,
        forall|i: int| 0 <= i < route(prompt).sections.len() ==> #[trigger] route(prompt).sections[i].step_number == i + 1,
        route(prompt).title.len() <= 80,
        forall|i: int| 0 <= i < route(prompt).metrics.len() ==> is_piece(
            ascii_digits(prompt),
            #[trigger] route(prompt).metrics[i].value,
        ),
        route(prompt).chart matches Some(c) ==> forall|i: int| 0 <= i < c.values.len() ==> is_piece(
            ascii_digits(lowercase(prompt)),
            #[trigger] c.values[i],
        ),
{
    let pd = ascii_digits(prompt);
    lemma_split_pieces(pd, ',');
    let ps = split_on(pd, ',');
    lemma_pairs_values(ps, pd);
    let prs = first_n(pairs_of(ps), 4);
    assert forall|i: int| 0 <= i < route(prompt).metrics.len() implies is_piece(pd, #[trigger] route(prompt).metrics[i].value) by {
        assert(route(prompt).metrics[i].value == prs[i].1);
        assert(prs[i] == pairs_of(ps)[i]);
    }
    reveal_strlit("SYSTEM ARCHITECTURE INFOGRAPHIC");
    let l = ascii_digits(lowercase(prompt));
    lemma_split_pieces(l, ',');
    lemma_pairs_values(split_on(l, ','), l);
    lemma_numeric_values(pairs_of(split_on(l, ',')), l);
    if let Some(c) = route(prompt).chart {
        let np = numeric_pairs(pairs_of(split_on(l, ',')));
        assert forall|i: int| 0 <= i < c.values.len() implies is_piece(l, #[trigger] c.values[i]) by {
            assert(c.values[i] == np[i].1);
        }
    }
}

/// The chart a prompt asks for has the kind its words name, by the first
/// of these that the lower-cased prompt holds: `stacked` a stacked bar
/// chart, `donut` a donut, `area` an area chart, `line` a line chart, `pie`
/// a pie, `scatter` a scatter plot, `heatmap` a heat map, `gauge` a gauge;
/// a bar chart when it holds none. A chart is bound whenever the prompt
/// names a chart (`chart`, `graph`, `plot`, `แผนภูมิ`, `กราฟ`) and states at
/// least two `label: number` pairs.
pub proof fn lemma_chart_kind(prompt: Seq<char>)
    ensures
        ({
            let l = ascii_digits(lowercase(prompt));
            let named = seq_contains(l, "chart"@) || seq_contains(l, "graph"@) || seq_contains(l, "plot"@)
                || seq_contains(l, "แผนภูมิ"@) || seq_contains(l, "กราฟ"@);
            let st = seq_contains(l, "stacked"@);
            let dn = seq_contains(l, "donut"@);
            let ar = seq_contains(l, "area"@);
            let ln = seq_contains(l, "line"@);
            let pi = seq_contains(l, "pie"@);
            let sc = seq_contains(l, "scatter"@);
            let hm = seq_contains(l, "heatmap"@);
            let ga = seq_contains(l, "gauge"@);
            &&& (named && numeric_pairs(pairs_of(split_on(l, ','))).len() >= 2) ==> route(prompt).chart is Some
            &&& route(prompt).chart matches Some(c) ==> {
                &&& st ==> c.chart_type == ChartType::StackedBar
                &&& (!st && dn) ==> c.chart_type == ChartType::Donut
                &&& (!st && !dn && ar) ==> c.chart_type == ChartType::Area
                &&& (!st && !dn && !ar && ln) ==> c.chart_type == ChartType::Line
                &&& (!st && !dn && !ar && !ln && pi) ==> c.chart_type == ChartType::Pie
                &&& (!st && !dn && !ar && !ln && !pi && sc) ==> c.chart_type == ChartType::Scatter
                &&& (!st && !dn && !ar && !ln && !pi && !sc && hm) ==> c.chart_type == ChartType::Heatmap
                &&& (!st && !dn && !ar && !ln && !pi && !sc && !hm && ga) ==> c.chart_type == ChartType::Gauge
                &&& (!st && !dn && !ar && !ln && !pi && !sc && !hm && !ga) ==> c.chart_type == ChartType::Bar
            }
        }),
{
}

} // verus!
