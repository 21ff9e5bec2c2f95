use katsvg_engine::router::{AspectRatio, ChartType, LayoutType, PaletteTheme};
use katsvg_engine::{InfographicConstraintPruner, InfographicIntentRouter};

fn router() -> InfographicIntentRouter {
    InfographicIntentRouter::new()
}

#[test]
fn routing_is_corpus_driven_not_hardcoded() {
    let r = router();
    let timeline = r.parse_and_route("Build a 4-step AI Agent Deployment Timeline in dark mode");
    assert_eq!(timeline.layout_type, LayoutType::ProcessTimeline);

    let dashboard = r.parse_and_route("Q3 financial KPI dashboard with metrics in navy");
    assert_eq!(dashboard.layout_type, LayoutType::StatisticalDashboard);

    let compare = r.parse_and_route("Compare GPT-4 vs Gemini feature matrix");
    assert_eq!(compare.layout_type, LayoutType::ComparisonGrid);
}

#[test]
fn title_derived_from_prompt_not_invented() {
    let r = router();
    let spec = r.parse_and_route("Quarterly Revenue Growth Report in navy");
    assert!(spec.title.starts_with("QUARTERLY"), "title must come from prompt");
}

#[test]
fn output_is_byte_deterministic() {
    let r = router();
    let prompt = "Build a 4-step AI Agent Deployment Timeline in dark mode";
    let a = r.parse_and_route(prompt);
    let b = r.parse_and_route(prompt);
    assert_eq!(format!("{a:?}"), format!("{b:?}"), "same prompt must yield an identical spec");
}

#[test]
fn title_is_first_six_words_upper_cased() {
    let spec = router().parse_and_route("make a quick one two three four five six seven");
    assert_eq!(spec.title, "MAKE A QUICK ONE TWO THREE");
    let empty = router().parse_and_route("   ");
    assert_eq!(empty.title, "SYSTEM ARCHITECTURE INFOGRAPHIC");
}

#[test]
fn theme_and_aspect_follow_keywords() {
    let r = router();
    assert_eq!(r.parse_and_route("bank report banner timeline").theme, PaletteTheme::FinancialNavy);
    assert_eq!(r.parse_and_route("bank report banner timeline").aspect_ratio, AspectRatio::Banner16_9);
    assert_eq!(r.parse_and_route("creative square").theme, PaletteTheme::VibrantCoral);
    assert_eq!(r.parse_and_route("creative square").aspect_ratio, AspectRatio::Square1_1);
    assert_eq!(r.parse_and_route("gold paper").theme, PaletteTheme::AcademicWarm);
    assert_eq!(r.parse_and_route("plain words").theme, PaletteTheme::TechDark);
    assert_eq!(r.parse_and_route("plain words").aspect_ratio, AspectRatio::A4Poster);
    assert_eq!(r.parse_and_route("plain words").layout_type, LayoutType::MindmapHierarchy);
}

#[test]
fn routed_spec_is_within_pruner_bounds() {
    let pruner = InfographicConstraintPruner::default();
    for prompt in ["", "!!!", "dashboard with 50 metrics", "99-step outrageous timeline", "x: 5, y: 10"] {
        let spec = router().parse_and_route(prompt);
        assert!(spec.metrics.len() <= pruner.max_metrics);
        assert!(spec.sections.len() <= pruner.max_sections);
        for (i, s) in spec.sections.iter().enumerate() {
            assert_eq!(s.step_number, i + 1);
        }
    }
}

#[test]
fn pruner_accepts_short_paths_only() {
    let p = InfographicConstraintPruner::default();
    assert_eq!((p.max_sections, p.max_metrics, p.max_title_len), (8, 4, 80));
    assert!(p.is_valid(0, 999, &[1, 2, 3]));
    assert!(!p.is_valid(0, 1000, &[]));
    assert!(!p.is_valid(0, 1, &[0; 33]));
    assert!(p.is_valid(0, 1, &[0; 32]));
}

#[test]
fn step_count_extracted_from_prompt() {
    let r = router();
    let spec = r.parse_and_route("Create a 4-step deployment roadmap in dark mode");
    assert!(spec.sections.len() <= 8);
    assert!(spec.sections.len() >= 2);
    assert_eq!(spec.sections.len(), 4, "explicit 4-step count must produce 4 sections");
}

#[test]
fn aspect_ratio_classified_and_bounded() {
    let r = router();
    let banner = r.parse_and_route("Create a banner timeline infographic in warm mode");
    assert_eq!(banner.aspect_ratio, AspectRatio::Banner16_9);

    let square = r.parse_and_route("Make a square social post in coral");
    assert_eq!(square.aspect_ratio, AspectRatio::Square1_1);

    let clamped = r.parse_and_route("Create a banner mindmap in dark mode");
    assert_eq!(clamped.aspect_ratio, AspectRatio::A4Poster);
}

#[test]
fn adversarial_prompts_never_panic_or_exceed_bounds() {
    let r = router();
    let prompts = [
        "",
        " ",
        "!!!",
        "make an infographic",
        "99-step outrageous timeline that is far too long and beyond every bound",
        "ffffffffffffffffffffffffffffffffffffffffffffffffffffffffffffffffffffffff",
        "dashboard with 50 metrics",
        "compare vs vs vs vs",
        "Q3 2024: revenue: 124M, costs: 89M, profit: 35M, margin: 28%, users: 12M in navy banner",
        "0-step no-op",
        "x: 5, y: 10, z: 15",
    ];

    for prompt in prompts {
        let spec = r.parse_and_route(prompt);
        assert!(spec.sections.len() <= 8, "prompt {prompt:?}: sections {} > 8", spec.sections.len());
        assert!(spec.metrics.len() <= 6, "prompt {prompt:?}: metrics {} > 6", spec.metrics.len());
        assert!(spec.title.len() <= 80, "prompt {prompt:?}: title too long");
        for m in &spec.metrics {
            assert!(prompt.to_lowercase().contains(&m.value.to_lowercase())
                || m.value.starts_with('<'),
                "metric value {:?} not present in prompt {prompt:?}", m.value);
        }
    }
}

#[test]
fn nested_colon_metric_extraction() {
    let r = router();
    let spec = r.parse_and_route("Q3 KPI dashboard: revenue: 124M, users: 12M in navy");
    let values: Vec<&str> = spec.metrics.iter().map(|m| m.value.as_str()).collect();
    assert!(
        values.iter().any(|v| v.contains("124")),
        "nested colon must bind revenue, got {values:?}"
    );
    assert!(
        values.iter().any(|v| v.contains("12")),
        "users bound, got {values:?}"
    );
}

#[test]
fn theme_classification_reaches_new_palettes() {
    let r = router();
    assert_eq!(r.parse_and_route("Ocean breeze report").theme, PaletteTheme::OceanBreeze);
    assert_eq!(r.parse_and_route("Sunset glow campaign poster").theme, PaletteTheme::SunsetGlow);
    assert_eq!(r.parse_and_route("Forest eco sustainability poster").theme, PaletteTheme::ForestMint);
    assert_eq!(r.parse_and_route("Minimal monochrome print").theme, PaletteTheme::Monochrome);
}

#[test]
fn prompt_pairs_become_metric_cards() {
    let r = router();
    let spec = r.parse_and_route("Q3 KPI dashboard: revenue: 124M, users: 12M in navy");
    assert_eq!(spec.metrics.len(), 2);
    assert_eq!((spec.metrics[0].label.as_str(), spec.metrics[0].value.as_str(), spec.metrics[0].icon.as_str()), ("revenue", "124M", "zap"));
    assert_eq!((spec.metrics[1].label.as_str(), spec.metrics[1].value.as_str(), spec.metrics[1].icon.as_str()), ("users", "12M", "cpu"));
    assert!(r.parse_and_route("").metrics.is_empty());
    assert!(r.parse_and_route("a: b: , : x, y :").metrics.is_empty());
    let five = r.parse_and_route("a: 1, b: 2, c: 3, d: 4, e: 5");
    assert_eq!(five.metrics.len(), 4);
    assert_eq!(five.metrics[3].icon, "activity");
}

#[test]
fn long_titles_are_cut_to_eighty_characters() {
    let r = router();
    let spec = r.parse_and_route(&"a".repeat(81));
    assert_eq!(spec.title, "A".repeat(80));
}

#[test]
fn step_counts_are_kept_between_two_and_eight() {
    let r = router();
    let four = r.parse_and_route("Create a 4-step deployment roadmap in dark mode");
    assert_eq!(four.sections.len(), 4);
    assert_eq!((four.sections[0].step_number, four.sections[0].title.as_str()), (1, "Step 1"));
    assert_eq!(four.sections[3].title, "Step 4");
    assert_eq!(r.parse_and_route("99-step outrageous timeline").sections.len(), 8);
    assert_eq!(r.parse_and_route("0-step no-op").sections.len(), 2);
    assert_eq!(r.parse_and_route("a 6-step plan then 3-step").sections.len(), 6);
    assert_eq!(r.parse_and_route("no count here").sections.len(), 4);
    assert_eq!(r.parse_and_route("x-step").sections.len(), 4);
}

#[test]
fn chart_extracted_only_when_requested() {
    let r = router();
    let no_chart = r.parse_and_route("Build a 4-step AI Agent Deployment Timeline in dark mode");
    assert!(no_chart.chart.is_none(), "no chart intent -> no chart bound");

    let bar = r.parse_and_route("Show a bar chart: Q1: 10, Q2: 25, Q3: 15, Q4: 30");
    let chart = bar.chart.expect("bar chart intent should bind a chart");
    assert_eq!(chart.chart_type, ChartType::Bar);
    assert_eq!(chart.values, vec!["10", "25", "15", "30"]);
    assert_eq!(chart.labels, vec!["q1", "q2", "q3", "q4"]);
}

#[test]
fn chart_values_never_invented() {
    let r = router();
    let line = r.parse_and_route("line chart: jan: 5, feb: 8, mar: 12");
    let chart = line.chart.expect("line chart should bind");
    assert_eq!(chart.chart_type, ChartType::Line);
    assert!(chart.values.iter().all(|v| ["5", "8", "12"].contains(&v.as_str())));
}

#[test]
fn insufficient_pairs_binds_nothing() {
    let r = router();
    let s = r.parse_and_route("show a chart with one point: a: 1");
    assert!(s.chart.is_none(), "single pair is not a chart series");
    let t = r.parse_and_route("pie chart: a: 1, b: x, c: 2.5");
    assert_eq!(t.chart.unwrap().labels, vec!["a", "c"]);
}

#[test]
fn thai_layout_classification() {
    let r = router();
    assert_eq!(r.parse_and_route("สร้างไทม์ไลน์การพัฒนาระบบ 4 ขั้นตอน").layout_type, LayoutType::ProcessTimeline);
    assert_eq!(r.parse_and_route("แดชบอร์ดแสดงสถิติยอดขายรายเดือน").layout_type, LayoutType::StatisticalDashboard);
    assert_eq!(r.parse_and_route("เปรียบเทียบฟีเจอร์ระหว่างสองผลิตภัณฑ์").layout_type, LayoutType::ComparisonGrid);
}

#[test]
fn thai_theme_classification() {
    let r = router();
    assert_eq!(r.parse_and_route("รายงานการเงินสีน้ำเงินเข้ม").theme, PaletteTheme::FinancialNavy);
    assert_eq!(r.parse_and_route("โปสเตอร์ธรรมชาติสีเขียว").theme, PaletteTheme::ForestMint);
    assert_eq!(r.parse_and_route("โปสเตอร์สร้างสรรค์สีปะการัง").theme, PaletteTheme::VibrantCoral);
    assert_eq!(r.parse_and_route("เอกสารวิชาการโทนทอง").theme, PaletteTheme::AcademicWarm);
}

#[test]
fn thai_aspect_classification() {
    let r = router();
    assert_eq!(r.parse_and_route("สร้างแบนเนอร์ไทม์ไลน์แนวนอน").aspect_ratio, AspectRatio::Banner16_9);
    assert_eq!(r.parse_and_route("โพสต์สี่เหลี่ยมจัตุรัส").aspect_ratio, AspectRatio::Square1_1);
}

#[test]
fn thai_numeric_step_count() {
    let r = router();
    let spec = r.parse_and_route("สร้างไทม์ไลน์การพัฒนาระบบสี่ขั้น");
    assert_eq!(spec.sections.len(), 4, "Thai word numeral should yield 4 sections");
    assert_eq!(r.parse_and_route("แผนงานเจ็ดขั้น").sections.len(), 7);
    assert_eq!(r.parse_and_route("แผนงานเก้าขั้น").sections.len(), 8);
}

#[test]
fn thai_metric_extraction() {
    let r = router();
    let spec = r.parse_and_route("รายงานรายได้: ๑๒๔ล้าน, ผู้ใช้: ๑๒ล้าน");
    assert!(spec.metrics.len() >= 1, "should extract metrics from Thai numeral pairs");
    let values: Vec<&str> = spec.metrics.iter().map(|m| m.value.as_str()).collect();
    assert!(values.iter().any(|v| v.contains("124")), "expected 124 from ๑๒๔, got {values:?}");
}

#[test]
fn thai_mixed_english_prompt() {
    let r = router();
    let spec = r.parse_and_route("show bar chart ขายรายเดือน: มกราคม: 10, กุมภาพันธ์: 25");
    assert!(spec.chart.is_some(), "mixed TH/EN chart prompt should bind a chart");
}

#[test]
fn spec_carries_layout_id() {
    let r = router();
    let hero = r.parse_and_route("Create a motivational hero quote poster in sunset");
    assert_eq!(hero.layout_id, "hero_quote");
    let kpi = r.parse_and_route("Show a KPI snapshot overview: revenue: 124M, users: 12M in navy");
    assert_eq!(kpi.layout_id, "kpi_snapshot");
    assert_eq!(r.parse_and_route("Build a timeline").layout_id, "process_timeline");
    assert_eq!(r.parse_and_route("plain words").layout_id, "mindmap_hierarchy");
}
