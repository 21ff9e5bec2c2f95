use katsvg_engine::compositor::{escape_svg, rect_for, slot_of};
use katsvg_engine::icon::split_commands;
use katsvg_engine::{fit_requests, render_svg_regions, IconRenderer, InfographicIntentRouter, RegionRect, Slot};

fn icons() -> IconRenderer {
    IconRenderer::from_pairs(vec![
        ("zap".to_string(), "M13 2 L3 14 h9 l-1 8 L21 10 h-9 z".to_string()),
        ("cpu".to_string(), "M4 4 h16 v16 H4 z M9 9 h6 v6 H9 z".to_string()),
        ("shield-check".to_string(), "M12 22 s8-4 8-10 V5 l-8-3".to_string()),
    ])
}

#[test]
fn split_commands_cuts_before_each_m() {
    assert_eq!(split_commands("M1 1 Z M2 2 Z"), vec!["M1 1 Z ", "M2 2 Z"]);
    assert_eq!(split_commands("L1 1 M2 2"), vec!["L1 1 ", "M2 2"]);
    assert_eq!(split_commands("M1 1"), vec!["M1 1"]);
    assert!(split_commands("").is_empty());
    let d = "M4 4 h16 v16 H4 z M9 9 h6 v6 H9 z M1 1";
    assert_eq!(split_commands(d).concat(), d);
}

#[test]
fn icon_table_looks_names_up_in_lower_case() {
    let t = icons();
    assert_eq!(t.count(), 3);
    assert!(t.has("ZAP"));
    assert!(!t.has("no-such-icon"));
    assert_eq!(t.paths("cpu"), vec!["M4 4 h16 v16 H4 z ", "M9 9 h6 v6 H9 z"]);
    assert!(t.paths("unknown").is_empty());
}

#[test]
fn later_icon_pair_replaces_earlier() {
    let t = IconRenderer::from_pairs(vec![
        ("a".to_string(), "M1 1".to_string()),
        ("b".to_string(), "M2 2".to_string()),
        ("a".to_string(), "M3 3 M4 4".to_string()),
    ]);
    assert_eq!(t.count(), 2);
    assert_eq!(t.paths("a"), vec!["M3 3 ", "M4 4"]);
}

#[test]
fn icon_renders_as_stroked_group() {
    let t = icons();
    let svg = t.render("zap", "#10B981");
    assert_eq!(
        svg,
        "<g fill=\"none\" stroke=\"#10B981\" stroke-width=\"2\" stroke-linecap=\"round\" stroke-linejoin=\"round\" transform=\"translate(-4,-4)\"><path d=\"M13 2 L3 14 h9 l-1 8 L21 10 h-9 z\" /></g>"
    );
    let none = t.render("no-such-icon", "#fff");
    assert!(none.starts_with("<g") && none.ends_with("</g>") && !none.contains("<path"));
}

#[test]
fn slots_bind_by_name() {
    assert_eq!(slot_of("title"), Slot::Title);
    assert_eq!(slot_of("subtitle"), Slot::Subtitle);
    assert_eq!(slot_of("metrics"), Slot::Metrics);
    assert_eq!(slot_of("chart"), Slot::Chart);
    assert_eq!(slot_of("footer"), Slot::Footer);
    assert_eq!(slot_of("sections"), Slot::Sections);
    assert_eq!(slot_of("whatever"), Slot::Sections);
}

#[test]
fn rect_for_takes_the_first_region_of_a_slot() {
    let rs = [
        RegionRect { slot: Slot::Footer, x: 1, y: 2, w: 3, h: 4 },
        RegionRect { slot: Slot::Title, x: 5, y: 6, w: 7, h: 8 },
        RegionRect { slot: Slot::Title, x: 9, y: 9, w: 9, h: 9 },
    ];
    assert_eq!(rect_for(&rs, Slot::Title).map(|r| r.x), Some(5));
    assert!(rect_for(&rs, Slot::Chart).is_none());
}

#[test]
fn escape_svg_replaces_markup() {
    assert_eq!(escape_svg("a<b>&c\"'"), "a&lt;b&gt;&amp;c\"'");
}

fn regions() -> Vec<RegionRect> {
    vec![
        RegionRect { slot: Slot::Title, x: 40, y: 40, w: 720, h: 60 },
        RegionRect { slot: Slot::Subtitle, x: 40, y: 100, w: 720, h: 30 },
        RegionRect { slot: Slot::Metrics, x: 40, y: 140, w: 720, h: 80 },
        RegionRect { slot: Slot::Sections, x: 40, y: 240, w: 720, h: 500 },
        RegionRect { slot: Slot::Footer, x: 40, y: 1080, w: 720, h: 40 },
    ]
}

#[test]
fn fit_requests_list_texts_in_document_order() {
    let spec = InfographicIntentRouter::new().parse_and_route("Build a timeline");
    let reqs = fit_requests(&regions(), &spec);
    assert_eq!(reqs.len(), 1 + 1 + 2 * spec.sections.len() + 1);
    assert_eq!(reqs[0].text, spec.title);
    assert_eq!((reqs[0].size, reqs[0].budget), (26, 704));
    assert_eq!((reqs[1].size, reqs[1].budget), (14, 712));
    assert_eq!(reqs[2].text, spec.sections[0].title);
    assert_eq!((reqs[2].size, reqs[2].budget), (15, 664));
    assert_eq!(reqs[3].text, spec.sections[0].description);
    assert_eq!(reqs[3].size, 11);
    let last = reqs.last().unwrap();
    assert_eq!((last.size, last.budget), (11, 720));
}

#[test]
fn regions_compose_the_document() {
    let spec = InfographicIntentRouter::new().parse_and_route("Build a timeline: revenue: 124M, users: 12M, cost: 9M");
    let rs = regions();
    let fitted: Vec<String> = fit_requests(&rs, &spec).into_iter().map(|f| f.text).collect();
    let svg = render_svg_regions(&rs, &spec, &fitted, &icons(), Some("<g id=\"chart\"/>"), "INTER", "THAI").unwrap();
    assert!(svg.starts_with("<svg xmlns=\"http://www.w3.org/2000/svg\" viewBox=\"0 0 800 1131\" width=\"800\" height=\"1131\">\n"));
    assert!(svg.ends_with("</svg>"));
    assert!(svg.contains("<g transform=\"translate(40, 40)\">"));
    assert!(svg.contains("<text x=\"40\" y=\"118\" class=\"subtitle\">"));
    // three metric cards of (720 - 20) / 3 = 233 px, 10 px apart
    assert!(svg.contains("<g transform=\"translate(40, 140)\">\n  <rect width=\"233\" height=\"80\""));
    assert!(svg.contains("<g transform=\"translate(283, 140)\">"));
    assert!(svg.contains("<g transform=\"translate(526, 140)\">"));
    // the chart fragment is only placed in a chart region
    assert!(!svg.contains("id=\"chart\""));
    assert!(svg.contains("stroke-linecap=\"round\""));
    // four section cards of (500 - 24) / 4 = 119 px, 8 px apart
    assert!(svg.contains("<g transform=\"translate(40, 240)\">\n  <rect width=\"720\" height=\"119\""));
    assert!(svg.contains("<g transform=\"translate(40, 367)\">"));
    assert!(svg.contains("<text x=\"400\" y=\"1100\" text-anchor=\"middle\""));
    assert!(svg.contains("url(data:font/woff2;base64,INTER)"));
    assert!(!svg.contains("Noto Sans Thai"));
}

#[test]
fn no_regions_no_document() {
    let spec = InfographicIntentRouter::new().parse_and_route("Build a timeline");
    assert!(render_svg_regions(&[], &spec, &[], &icons(), None, "", "").is_none());
}

#[test]
fn chart_region_takes_the_chart_fragment() {
    let spec = InfographicIntentRouter::new().parse_and_route("Build a timeline");
    let rs = vec![RegionRect { slot: Slot::Chart, x: 0, y: 0, w: 10, h: 10 }];
    let svg = render_svg_regions(&rs, &spec, &[], &icons(), Some("<g id=\"chart\"/>"), "", "").unwrap();
    assert!(svg.contains("<g id=\"chart\"/></svg>"));
}

#[test]
fn renders_known_icon_as_svg() {
    let svg = icons().render("zap", "#10B981");
    assert!(svg.contains("<g"), "icon must render as a group");
    assert!(svg.contains("<path"), "icon must contain path");
    assert!(svg.contains("#10B981"), "icon must carry the stroke color");
}

#[test]
fn unknown_icon_falls_back_gracefully() {
    let svg = icons().render("no-such-icon", "#fff");
    assert!(svg.contains("<g"), "fallback must emit a group");
    assert!(!svg.contains("<path"));
}
