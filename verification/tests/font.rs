use katsvg_engine::font::{font_stack, font_style_block, has_non_ascii};
use katsvg_engine::InfographicIntentRouter;

const INTER_B64: &str = "d09GMgABAAAAAA";
const THAI_B64: &str = "AAEAAAASAQAABAAg";

#[test]
fn font_block_declares_embedded_inter() {
    let block = font_style_block(false, INTER_B64, THAI_B64);
    assert!(block.contains("@font-face"), "missing @font-face");
    assert!(block.contains("data:font/woff2;base64"), "Inter embedded as woff2 data URI");
    assert!(block.contains("format('woff2')"), "woff2 format required");
}

#[test]
fn font_block_conditionally_embeds_thai() {
    let ascii = font_style_block(false, INTER_B64, THAI_B64);
    assert!(!ascii.contains("Noto Sans Thai"), "no Thai face for ascii-only text");

    let thai = font_style_block(true, INTER_B64, THAI_B64);
    assert!(thai.contains("Noto Sans Thai"), "Thai face present when has_thai");
    assert!(thai.contains("data:font/truetype;base64"), "Thai embedded as truetype data URI");
}

#[test]
fn font_stack_has_fallbacks() {
    assert!(font_stack(false).contains("Inter"), "Inter should lead the stack");
    assert!(font_stack(false).contains("system-ui"), "should include system fallback");
    assert!(font_stack(true).contains("Noto Sans Thai"), "Thai stack includes Noto Sans Thai");
}

#[test]
fn has_non_ascii_detects_thai() {
    assert!(has_non_ascii("รายงานการเงิน"));
    assert!(!has_non_ascii("Quarterly report"));
}

#[test]
fn svg_embeds_thai_font_for_thai_prompt() {
    let r = InfographicIntentRouter::new();
    let svg = katsvg_engine::SVGVectorRenderer::render(&r.parse_and_route("สร้างไทม์ไลน์การพัฒนาระบบ"), INTER_B64, THAI_B64);
    assert!(svg.contains("Noto Sans Thai"), "Thai prompt SVG must embed Noto Sans Thai");
    assert!(!svg.contains("googleapis"), "no network ref");
    assert!(!svg.contains("@import"), "no @import");
}

#[test]
fn svg_skips_thai_font_for_ascii_prompt() {
    let r = InfographicIntentRouter::new();
    let svg = katsvg_engine::SVGVectorRenderer::render(&r.parse_and_route("Quarterly revenue dashboard"), INTER_B64, THAI_B64);
    assert!(!svg.contains("Noto Sans Thai"), "ascii prompt SVG must not carry the Thai font");
    assert!(svg.contains("data:font/woff2;base64"), "Inter still embedded");
}

#[test]
fn font_block_carries_the_payloads() {
    let block = font_style_block(true, "INTERDATA", "THAIDATA");
    assert_eq!(
        block,
        "@font-face { font-family: 'Inter'; src: url(data:font/woff2;base64,INTERDATA) format('woff2'); font-weight: 400; font-style: normal; }\n\
         @font-face { font-family: 'Noto Sans Thai'; src: url(data:font/truetype;base64,THAIDATA) format('truetype'); font-weight: 400; font-style: normal; }\n"
    );
}
