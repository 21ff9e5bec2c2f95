use katsvg_engine::png::{hex_to_rgb_u8, RasterOp};
use katsvg_engine::raster::{canvas, draw_triangle, fill_rect, point_in_tri, rect, sign, vline};
use katsvg_engine::{InfographicIntentRouter, PNGRasterExporter};

fn pixel(buf: &[u8], w: usize, x: usize, y: usize) -> (u8, u8, u8) {
    let i = (y * w + x) * 3;
    (buf[i], buf[i + 1], buf[i + 2])
}

#[test]
fn canvas_is_one_color() {
    let c = canvas(4, (1, 2, 3));
    assert_eq!(c, vec![1, 2, 3, 1, 2, 3, 1, 2, 3, 1, 2, 3]);
}

#[test]
fn set_paints_inside_only() {
    let mut b = canvas(4, (0, 0, 0));
    katsvg_engine::raster::set(&mut b, 2, 2, 1, 1, (9, 8, 7));
    katsvg_engine::raster::set(&mut b, 2, 2, 2, 0, (5, 5, 5));
    assert_eq!(pixel(&b, 2, 1, 1), (9, 8, 7));
    assert_eq!(pixel(&b, 2, 0, 0), (0, 0, 0));
    assert_eq!(b.iter().filter(|&&v| v == 5).count(), 0);
}

#[test]
fn rect_paints_exactly_its_pixels() {
    let (w, h) = (5usize, 4usize);
    let mut b = canvas(w * h, (0, 0, 0));
    rect(&mut b, w, h, 1, 1, 3, 9, (7, 7, 7));
    for y in 0..h {
        for x in 0..w {
            let inside = (1..3).contains(&x) && (1..9).contains(&y);
            assert_eq!(pixel(&b, w, x, y), if inside { (7, 7, 7) } else { (0, 0, 0) }, "pixel {x},{y}");
        }
    }
}

#[test]
fn vline_paints_a_column() {
    let mut b = canvas(9, (0, 0, 0));
    vline(&mut b, 3, 3, 2, 0, 2, (1, 1, 1));
    assert_eq!(pixel(&b, 3, 2, 0), (1, 1, 1));
    assert_eq!(pixel(&b, 3, 2, 1), (1, 1, 1));
    assert_eq!(pixel(&b, 3, 2, 2), (0, 0, 0));
}

#[test]
fn fill_rect_clips_to_width_and_rows() {
    let mut b = canvas(6, (0, 0, 0));
    fill_rect(&mut b, 3, 2, 1, 10, 10, (4, 4, 4));
    assert_eq!(pixel(&b, 3, 2, 1), (4, 4, 4));
    assert_eq!(pixel(&b, 3, 1, 1), (0, 0, 0));
    assert_eq!(pixel(&b, 3, 2, 0), (0, 0, 0));
    assert_eq!(b.len(), 18);
    let mut e = canvas(2, (3, 3, 3));
    fill_rect(&mut e, 0, 0, 5, 9, 5, (1, 1, 1));
    assert_eq!(e, canvas(2, (3, 3, 3)));
}

#[test]
fn side_and_triangle_membership() {
    assert_eq!(sign(0, 0, 1, 0, 0, 1), 1);
    assert_eq!(sign(2, 3, 4, 5, 6, 7), (2 - 6) * (5 - 7) - (4 - 6) * (3 - 7));
    assert!(point_in_tri(1, 1, 0, 0, 4, 0, 0, 4));
    assert!(point_in_tri(0, 0, 0, 0, 4, 0, 0, 4));
    assert!(!point_in_tri(4, 4, 0, 0, 4, 0, 0, 4));
}

#[test]
fn triangle_fills_its_inside() {
    let (w, h) = (5usize, 5usize);
    let mut b = canvas(w * h, (0, 0, 0));
    draw_triangle(&mut b, w, h, 0, 0, 4, 0, 0, 4, (2, 2, 2));
    for y in 0..h {
        for x in 0..w {
            let inside = x + y <= 4;
            assert_eq!(pixel(&b, w, x, y) == (2, 2, 2), inside, "pixel {x},{y}");
        }
    }
}

#[test]
fn hex_colors_parse() {
    assert_eq!(hex_to_rgb_u8("#0B0F19"), (11, 15, 25));
    assert_eq!(hex_to_rgb_u8("##ffffff"), (255, 255, 255));
    assert_eq!(hex_to_rgb_u8("#fff"), (20, 20, 20));
    assert_eq!(hex_to_rgb_u8("#zz+f10"), (0, 15, 16));
}

#[test]
fn raster_ops_lay_out_the_canvas() {
    let spec = InfographicIntentRouter::new().parse_and_route("Build a timeline: revenue: 124M, users: 12M, cost: 9M");
    let ops = PNGRasterExporter::raster_ops(&spec, false);
    // title bar, title, subtitle; 4 steps per metric card; per section a connector
    // (all but the last), card, badge, and three texts
    assert_eq!(ops.len(), 3 + 4 * 3 + (4 * 5 + 3));
    match &ops[0] {
        RasterOp::Fill { x0, y0, x1, y1, color } => assert_eq!((*x0, *y0, *x1, *y1, *color), (40, 50, 48, 98, (0x3B, 0x82, 0xF6))),
        _ => panic!("title bar"),
    }
    match &ops[3] {
        // (800 - 80 - 2 * 16) / 3 = 229
        RasterOp::Fill { x0, x1, .. } => assert_eq!((*x0, *x1), (40, 269)),
        _ => panic!("first card"),
    }
    match &ops[6] {
        RasterOp::Icon { cx, cy, name, .. } => assert_eq!((*cx, *cy, name.as_str()), (249, 160, "zap")),
        _ => panic!("first icon"),
    }
    let with_chart = PNGRasterExporter::raster_ops(&spec, true);
    assert!(with_chart.iter().any(|o| matches!(o, RasterOp::Chart { x: 40, y: 240, w: 720, h: 260, .. })));
}

#[test]
fn png_encoding_starts_with_signature_and_header() {
    let px = canvas(6, (10, 20, 30));
    let png = PNGRasterExporter::encode_png(&px, 3, 2);
    assert_eq!(&png[..8], b"\x89PNG\r\n\x1a\n");
    assert_eq!(&png[8..16], b"\x00\x00\x00\x0dIHDR");
    assert_eq!(&png[16..29], &[0, 0, 0, 3, 0, 0, 0, 2, 8, 2, 0, 0, 0]);
    assert_ne!(png, px);
}

#[test]
fn hex_colors_count_bytes() {
    assert_eq!(hex_to_rgb_u8("#é1234"), (0, 0x12, 0x34));
    assert_eq!(hex_to_rgb_u8("#ééé"), (0, 0, 0));
    assert_eq!(hex_to_rgb_u8("#aé"), (20, 20, 20));
    assert_eq!(hex_to_rgb_u8("#ก12"), (20, 20, 20));
}
