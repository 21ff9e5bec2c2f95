use katsvg_engine::chart_shapes::{emu, shape_freeform, shape_rect};
use katsvg_engine::crc::{crc32, crc32_table};
use katsvg_engine::exporter::escape_xml;
use katsvg_engine::palette::{PaletteEntry, PaletteRegistry, PaletteRoles};
use katsvg_engine::pdf_font::{cid_hex, sanitize_pdf_str, thai_font, tj_operand};
use katsvg_engine::router::PaletteTheme;

#[test]
fn crc32_check_value() {
    let t = crc32_table();
    assert_eq!(crc32(&t, b"123456789"), 0xCBF4_3926);
    assert_eq!(crc32(&t, b""), 0);
}

#[test]
fn xml_escape_replaces_markup_and_quotes() {
    assert_eq!(escape_xml("<a href=\"x\">R&D's</a>"), "&lt;a href=&quot;x&quot;&gt;R&amp;D&apos;s&lt;/a&gt;");
}

#[test]
fn chart_shapes_in_emu() {
    assert_eq!(emu(2), 25_400);
    let mut xml = String::new();
    shape_rect(&mut xml, 7, 1, 2, 3, 4, "#10B981");
    assert_eq!(
        xml,
        "<p:sp><p:nvSpPr><p:cNvPr id=\"7\" name=\"c7\"/><p:cNvSpPr/><p:nvPr/></p:nvSpPr><p:spPr><a:xfrm><a:off x=\"12700\" y=\"25400\"/><a:ext cx=\"38100\" cy=\"50800\"/></a:xfrm><a:prstGeom prst=\"rect\"><a:avLst/></a:prstGeom><a:solidFill><a:srgbClr val=\"10B981\"/></a:solidFill></p:spPr><p:txBody><a:bodyPr/><a:lstStyle/><a:p><a:endParaRPr lang=\"en-US\"/></a:p></p:txBody></p:sp>\n"
    );
    let mut line = String::new();
    shape_freeform(&mut line, 8, 0, 0, 1, 1, "#FFFFFF");
    assert!(line.contains("<a:ln w=\"28575\"><a:solidFill><a:srgbClr val=\"FFFFFF\"/></a:solidFill></a:ln><a:noFill/>"));
}

#[test]
fn pdf_text_operands() {
    assert_eq!(cid_hex(&[0x0E01, 5, 0xFFFF]), "<0E010005FFFF>");
    assert_eq!(cid_hex(&[]), "<>");
    assert_eq!(sanitize_pdf_str("a(b)\\c"), "a\\(b\\)\\\\c");
    assert_eq!(tj_operand("Hi (x)", None), "(Hi \\(x\\))");
    assert_eq!(tj_operand("ไทย", None), "(ไทย)");
    assert!(thai_font(b"not a font".to_vec()).is_none());
}

#[test]
fn font_data_without_signature_is_rejected() {
    assert!(thai_font(Vec::new()).is_none());
    assert!(thai_font(vec![0x00, 0x01, 0x00]).is_none());
    assert!(thai_font(b"OTTX rest of data".to_vec()).is_none());
}

fn entry(theme: PaletteTheme, bg: &str) -> PaletteEntry {
    PaletteEntry {
        id: "p".to_string(),
        palette_type: theme,
        description: None,
        roles: PaletteRoles {
            bg: bg.to_string(),
            card_bg: "#111111".to_string(),
            accent1: "#222222".to_string(),
            accent2: "#333333".to_string(),
            text: "#444444".to_string(),
        },
        color_blind_safe: None,
        dark_mode: Some(true),
    }
}

#[test]
fn palette_registry_prefers_corpus_then_built_in_colors() {
    let reg = PaletteRegistry::from_entries(vec![
        entry(PaletteTheme::FinancialNavy, "#000001"),
        entry(PaletteTheme::FinancialNavy, "#000002"),
    ]);
    assert_eq!(reg.len(), 2);
    assert!(!reg.is_empty());
    assert_eq!(reg.colors(PaletteTheme::FinancialNavy).bg, "#000001");
    let fallback = reg.colors(PaletteTheme::TechDark);
    assert_eq!(
        (fallback.bg.as_str(), fallback.card_bg.as_str(), fallback.accent1.as_str(), fallback.accent2.as_str(), fallback.text.as_str()),
        PaletteTheme::TechDark.colors()
    );
    assert!(reg.get(PaletteTheme::AcademicWarm).is_none());
    assert_eq!(reg.get(PaletteTheme::FinancialNavy).unwrap().roles.bg, "#000001");
    assert!(PaletteRegistry::from_entries(vec![]).is_empty());
}

#[test]
fn all_theme_variants_resolve_colors() {
    let reg = PaletteRegistry::from_entries(Vec::new());
    for theme in [
        PaletteTheme::TechDark,
        PaletteTheme::FinancialNavy,
        PaletteTheme::VibrantCoral,
        PaletteTheme::AcademicWarm,
        PaletteTheme::OceanBreeze,
        PaletteTheme::SunsetGlow,
        PaletteTheme::ForestMint,
        PaletteTheme::Monochrome,
    ] {
        let c = reg.colors(theme);
        assert!(c.bg.starts_with('#') && c.bg.len() == 7, "{theme:?} bg {:?}", c.bg);
        assert!(c.accent1.starts_with('#'), "{theme:?} accent1");
        assert!(c.accent2.starts_with('#'), "{theme:?} accent2");
        assert!(c.text.starts_with('#'), "{theme:?} text");
    }
}

#[test]
fn new_themes_differ_from_existing() {
    let reg = PaletteRegistry::from_entries(Vec::new());
    let tech = reg.colors(PaletteTheme::TechDark);
    for theme in [PaletteTheme::OceanBreeze, PaletteTheme::SunsetGlow, PaletteTheme::ForestMint, PaletteTheme::Monochrome] {
        let c = reg.colors(theme);
        assert_ne!(c.bg, tech.bg, "{theme:?} bg should differ from TechDark");
    }
}

#[test]
fn zip_reads_back_its_entries() {
    let entries: Vec<(&str, &[u8])> = vec![("a.txt", b"hello"), ("dir/b.xml", b"<x/>"), ("c", b"123456789")];
    let z = katsvg_engine::zip::zip_package(&entries);
    let u16_at = |i: usize| u16::from_le_bytes([z[i], z[i + 1]]) as usize;
    let u32_at = |i: usize| u32::from_le_bytes([z[i], z[i + 1], z[i + 2], z[i + 3]]) as usize;
    let e = z.len() - 22;
    assert_eq!(&z[e..e + 4], b"PK\x05\x06");
    assert_eq!(u16_at(e + 10), 3);
    let cd_off = u32_at(e + 16);
    assert_eq!(u32_at(e + 12), e - cd_off);
    let t = crc32_table();
    let mut p = cd_off;
    for (name, data) in &entries {
        assert_eq!(u32_at(p + 16), crc32(&t, data) as usize);
        let off = u32_at(p + 42);
        let nl = u16_at(off + 26);
        let dl = u32_at(off + 18);
        assert_eq!(&z[off + 30..off + 30 + nl], name.as_bytes());
        assert_eq!(&z[off + 30 + nl..off + 30 + nl + dl], *data);
        assert_eq!(u32_at(off + 14), crc32(&t, data) as usize);
        p += 46 + u16_at(p + 28);
    }
    assert_eq!(crc32(&t, b"123456789"), 0xCBF43926);
}

#[test]
fn path_tokenizer_splits_commands_and_numbers() {
    let cmds = katsvg_engine::icon_path::parse_path("M13 2 L3 14h9l-1 8 .5,-.25z");
    let got: Vec<(char, Vec<String>)> = cmds.iter().map(|c| (c.cmd, c.args.clone())).collect();
    let want: Vec<(char, Vec<String>)> = vec![
        ('M', vec!["13".to_string(), "2".to_string()]),
        ('L', vec!["3".to_string(), "14".to_string()]),
        ('h', vec!["9".to_string()]),
        ('l', vec!["-1".to_string(), "8".to_string(), "0.5".to_string(), "-.25".to_string()]),
        ('z', vec![]),
    ];
    assert_eq!(got, want);
}

#[test]
fn path_tokenizer_expands_move_pairs() {
    let cmds = katsvg_engine::icon_path::parse_path("M 1 2 3 4 5 6 7");
    let got: Vec<(char, Vec<String>)> = cmds.iter().map(|c| (c.cmd, c.args.clone())).collect();
    let want: Vec<(char, Vec<String>)> = vec![
        ('M', vec!["1".to_string(), "2".to_string()]),
        ('L', vec!["3".to_string(), "4".to_string()]),
        ('L', vec!["5".to_string(), "6".to_string()]),
    ];
    assert_eq!(got, want);
}

#[test]
fn path_tokenizer_drops_malformed_numbers() {
    let cmds = katsvg_engine::icon_path::parse_path("L 1.2.3 - 4");
    assert_eq!(cmds.len(), 1);
    assert_eq!(cmds[0].cmd, 'L');
    assert_eq!(cmds[0].args, vec!["4".to_string()]);
}
