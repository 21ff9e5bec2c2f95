use katsvg_engine::http::{
    b64, bad_format_body, content_type, doc_format, parse_query, percent_decode, response_head, route_request,
    status_bad, status_not_found, status_ok, DocFormat, Route,
};

#[test]
fn content_types_by_format() {
    assert_eq!(content_type("svg"), "image/svg+xml");
    assert_eq!(content_type("pdf"), "application/pdf");
    assert_eq!(content_type("png"), "image/png");
    assert_eq!(content_type("pptx"), "application/vnd.openxmlformats-officedocument.presentationml.presentation");
    assert_eq!(content_type("gif"), "application/octet-stream");
}

#[test]
fn status_lines() {
    assert_eq!(status_ok(), "200 OK");
    assert_eq!(status_bad(), "400 Bad Request");
    assert_eq!(status_not_found(), "404 Not Found");
}

#[test]
fn reply_head_format() {
    assert_eq!(
        response_head("200 OK", "image/png", 1234),
        "HTTP/1.1 200 OK\r\nContent-Type: image/png\r\nContent-Length: 1234\r\nConnection: close\r\n\r\n"
    );
}

#[test]
fn document_formats() {
    assert_eq!(doc_format("svg"), Some(DocFormat::Svg));
    assert_eq!(doc_format("pptx"), Some(DocFormat::Pptx));
    assert_eq!(doc_format("SVG"), None);
    assert_eq!(bad_format_body("gif"), "bad format: gif");
}

#[test]
fn base64_standard_alphabet_and_padding() {
    assert_eq!(b64(b""), "");
    assert_eq!(b64(b"M"), "TQ==");
    assert_eq!(b64(b"Ma"), "TWE=");
    assert_eq!(b64(b"Man"), "TWFu");
    assert_eq!(b64(&[0xfb, 0xff, 0xbf]), "+/+/");
    for n in 0..20usize {
        let data: Vec<u8> = (0..n as u8).collect();
        assert_eq!(b64(&data).len(), 4 * ((n + 2) / 3));
    }
}

#[test]
fn percent_decoding() {
    assert_eq!(percent_decode("a%20b"), "a b");
    assert_eq!(percent_decode("%41%42c"), "ABc");
    assert_eq!(percent_decode("%+41"), "\u{4}1");
    assert_eq!(percent_decode("100%"), "100%");
    assert_eq!(percent_decode("%4"), "%4");
    assert_eq!(percent_decode("%zz"), "%zz");
    assert_eq!(percent_decode("%E0%B8%81"), "ก");
    assert_eq!(percent_decode("%FF"), "\u{FFFD}");
    assert_eq!(percent_decode("plain ไทย text"), "plain ไทย text");
    // an escape that would split a character is copied through
    assert_eq!(percent_decode("%aé"), "%aé");
    assert_eq!(percent_decode("%ไทย"), "%ไทย");
}

#[test]
fn query_parameters_later_pair_wins() {
    let q = parse_query("prompt=Q3%20KPI&format=pdf&format=png&noequals&=x");
    assert_eq!(q.get("prompt").as_deref(), Some("Q3 KPI"));
    assert_eq!(q.get("format").as_deref(), Some("png"));
    assert_eq!(q.get("noequals"), None);
    assert_eq!(q.get("").as_deref(), Some("x"));
}

#[test]
fn requests_route_to_pages_and_documents() {
    let form = route_request("GET / HTTP/1.1\r\nHost: x\r\n\r\n");
    assert!(matches!(form.route, Route::Form));
    assert_eq!(form.content_type, "text/html; charset=utf-8");

    let demo = route_request("GET /demo HTTP/1.1\r\n\r\n");
    assert!(matches!(demo.route, Route::Demo));

    let doc = route_request("GET /render?prompt=Q3%20KPI%20dashboard&format=pdf HTTP/1.1\r\n\r\n");
    match doc.route {
        Route::Render { prompt, format } => {
            assert_eq!(prompt, "Q3 KPI dashboard");
            assert_eq!(format, "pdf");
        }
        _ => panic!("render expected"),
    }
    assert_eq!(doc.content_type, "application/pdf");

    let dflt = route_request("GET /render HTTP/1.1\r\n\r\n");
    match dflt.route {
        Route::Render { prompt, format } => assert_eq!((prompt.as_str(), format.as_str()), ("", "svg")),
        _ => panic!("render expected"),
    }
    assert_eq!(route_request("GET /render?format=all").content_type, "application/json");
    assert_eq!(route_request("GET /render?format=preview").content_type, "text/html; charset=utf-8");

    let post = route_request("POST /render?format=png HTTP/1.1");
    assert!(matches!(post.route, Route::NotFound));
    assert_eq!(post.content_type, "image/png");
    assert!(matches!(route_request("").route, Route::Form));
    assert!(matches!(route_request("GET /nope").route, Route::NotFound));
    match route_request("GET /render?prompt=%aé HTTP/1.1").route {
        Route::Render { prompt, .. } => assert_eq!(prompt, "%aé"),
        _ => panic!("render expected"),
    }
}
