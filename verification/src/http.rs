//! The HTTP front end's decisions: which page or document a request asks
//! for, the query-string decoding, the reply head, and the base64 text used
//! to embed documents in JSON.

use crate::strutil::{dec, push_char, push_dec, push_str};
use vstd::prelude::*;
use vstd::string::*;

verus! {

/// The media type of a document format name.
pub open spec fn media_type(f: Seq<char>) -> Seq<char> {
    if f == "svg"@ {
        "image/svg+xml"@
    } else if f == "pdf"@ {
        "application/pdf"@
    } else if f == "png"@ {
        "image/png"@
    } else if f == "pptx"@ {
        "application/vnd.openxmlformats-officedocument.presentationml.presentation"@
    } else {
        "application/octet-stream"@
    }
}

/// Whether `s` and `t` hold the same characters.
pub fn text_eq(s: &str, t: &str) -> (r: bool)
    ensures
        r == (s@ == t@),
{
    let a = crate::strutil::str_chars(s);
    let b = crate::strutil::str_chars(t);
    if a.len() != b.len() {
        return false;
    }
    let mut i: usize = 0;
    while i < a.len()
        invariant
            i <= a.len(),
            a.len() == b.len(),
            a@ == s@,
            b@ == t@,
            forall|k: int| 0 <= k < i ==> a@[k] == b@[k],
        decreases a.len() - i,
    {
        if a[i] != b[i] {
            return false;
        }
        i = i + 1;
    }
    assert(a@ =~= b@);
    true
}

/// The `Content-Type` of a rendered document in format `fmt`.
pub fn content_type(fmt: &str) -> (r: &'static str)
    ensures
        r@ == media_type(fmt@),
{
    proof {
        reveal_strlit("svg");
        reveal_strlit("pdf");
        reveal_strlit("png");
        reveal_strlit("pptx");
    }
    if text_eq(fmt, "svg") {
        "image/svg+xml"
    } else if text_eq(fmt, "pdf") {
        "application/pdf"
    } else if text_eq(fmt, "png") {
        "image/png"
    } else if text_eq(fmt, "pptx") {
        "application/vnd.openxmlformats-officedocument.presentationml.presentation"
    } else {
        "application/octet-stream"
    }
}

/// Status line text of a success.
pub fn status_ok() -> (r: String)
    ensures
        r@ == "200 OK"@,
{
    String::from_str("200 OK")
}

/// Status line text of a rejected request.
pub fn status_bad() -> (r: String)
    ensures
        r@ == "400 Bad Request"@,
{
    String::from_str("400 Bad Request")
}

/// Status line text of an unknown path.
pub fn status_not_found() -> (r: String)
    ensures
        r@ == "404 Not Found"@,
{
    String::from_str("404 Not Found")
}

/// The head of a reply: status line, content type, length, and
/// `Connection: close`, ended by an empty line.
pub open spec fn reply_head(status: Seq<char>, ctype: Seq<char>, len: nat) -> Seq<char> {
    "HTTP/1.1 "@ + status + "\r\nContent-Type: "@ + ctype + "\r\nContent-Length: "@ + dec(len)
        + "\r\nConnection: close\r\n\r\n"@
}

/// The head of a reply with this status, content type and body length.
pub fn response_head(status: &str, ctype: &str, body_len: usize) -> (r: String)
    ensures
        r@ == reply_head(status@, ctype@, body_len as nat),
{
    let mut r = String::new();
    push_str(&mut r, "HTTP/1.1 ");
    push_str(&mut r, status);
    push_str(&mut r, "\r\nContent-Type: ");
    push_str(&mut r, ctype);
    push_str(&mut r, "\r\nContent-Length: ");
    push_dec(&mut r, body_len as u64);
    push_str(&mut r, "\r\nConnection: close\r\n\r\n");
    r
}

/// A document format a request can ask for.
#[derive(Debug, Clone, Copy, PartialEq, Eq, Structural)]
pub enum DocFormat {
    Svg,
    Pdf,
    Png,
    Pptx,
}

/// The document format a name asks for, if it names one.
pub open spec fn doc_format_of(f: Seq<char>) -> Option<DocFormat> {
    if f == "svg"@ {
        Some(DocFormat::Svg)
    } else if f == "pdf"@ {
        Some(DocFormat::Pdf)
    } else if f == "png"@ {
        Some(DocFormat::Png)
    } else if f == "pptx"@ {
        Some(DocFormat::Pptx)
    } else {
        None
    }
}

/// The document format `f` names: `svg`, `pdf`, `png` or `pptx`.
pub fn doc_format(f: &str) -> (r: Option<DocFormat>)
    ensures
        r == doc_format_of(f@),
{
    proof {
        reveal_strlit("svg");
        reveal_strlit("pdf");
        reveal_strlit("png");
        reveal_strlit("pptx");
    }
    if text_eq(f, "svg") {
        Some(DocFormat::Svg)
    } else if text_eq(f, "pdf") {
        Some(DocFormat::Pdf)
    } else if text_eq(f, "png") {
        Some(DocFormat::Png)
    } else if text_eq(f, "pptx") {
        Some(DocFormat::Pptx)
    } else {
        None
    }
}

/// The body of the reply to an unknown format.
pub fn bad_format_body(f: &str) -> (r: String)
    ensures
        r@ == "bad format: "@ + f@,
{
    let mut r = String::new();
    push_str(&mut r, "bad format: ");
    push_str(&mut r, f);
    r
}

/// The base64 digit for a six-bit value.
pub open spec fn b64_char(v: int) -> char {
    if v < 26 {
        (65 + v) as char
    } else if v < 52 {
        (97 + v - 26) as char
    } else if v < 62 {
        (48 + v - 52) as char
    } else if v == 62 {
        '+'
    } else {
        '/'
    }
}

/// Standard base64 (alphabet `A-Z a-z 0-9 + /`, `=` padding) of `d`.
pub open spec fn base64(d: Seq<u8>) -> Seq<char>
    decreases d.len(),
{
    if d.len() == 0 {
        seq![]
    } else {
        let b0 = d[0] as int;
        let b1 = if d.len() > 1 { d[1] as int } else { 0 };
        let b2 = if d.len() > 2 { d[2] as int } else { 0 };
        let n = b0 * 65536 + b1 * 256 + b2;
        let quad = seq![
            b64_char(n / 262144),
            b64_char((n / 4096) % 64),
            if d.len() > 1 { b64_char((n / 64) % 64) } else { '=' },
            if d.len() > 2 { b64_char(n % 64) } else { '=' },
        ];
        if d.len() <= 3 {
            quad
        } else {
            quad + base64(d.skip(3))
        }
    }
}

fn b64_digit(v: u32) -> (c: char)
    requires
        v < 64,
    ensures
        c == b64_char(v as int),
{
    if v < 26 {
        ((65 + v) as u8) as char
    } else if v < 52 {
        ((97 + v - 26) as u8) as char
    } else if v < 62 {
        ((48 + v - 52) as u8) as char
    } else if v == 62 {
        '+'
    } else {
        '/'
    }
}

/// Standard base64 of `data`, with `=` padding.
pub fn b64(data: &[u8]) -> (r: String)
    ensures
        r@ == base64(data@),
{
    let mut out = String::new();
    let mut i: usize = 0;
    assert(data@.skip(0) == data@);
    assert(out@ + base64(data@) =~= base64(data@));
    while i < data.len()
        invariant
            i <= data.len(),
            out@ + base64(data@.skip(i as int)) == base64(data@),
        decreases data.len() - i,
    {
        let ghost rest = data@.skip(i as int);
        let len = data.len() - i;
        let b0 = data[i] as u32;
        let b1: u32 = if len > 1 { data[i + 1] as u32 } else { 0 };
        let b2: u32 = if len > 2 { data[i + 2] as u32 } else { 0 };
        let n = b0 * 65536 + b1 * 256 + b2;
        let ghost quad = seq![
            b64_char((n / 262144) as int),
            b64_char(((n / 4096) % 64) as int),
            if len > 1 { b64_char(((n / 64) % 64) as int) } else { '=' },
            if len > 2 { b64_char((n % 64) as int) } else { '=' },
        ];
        let ghost o0 = out@;
        push_char(&mut out, b64_digit(n / 262144));
        push_char(&mut out, b64_digit((n / 4096) % 64));
        if len > 1 {
            push_char(&mut out, b64_digit((n / 64) % 64));
        } else {
            push_char(&mut out, '=');
        }
        if len > 2 {
            push_char(&mut out, b64_digit(n % 64));
        } else {
            push_char(&mut out, '=');
        }
        assert(out@ =~= o0 + quad);
        if len > 3 {
            assert(rest.skip(3) =~= data@.skip(i + 3));
            assert(base64(rest) == quad + base64(rest.skip(3)));
            i = i + 3;
        } else {
            assert(base64(rest) == quad);
            assert(data@.skip(data.len() as int) =~= Seq::<u8>::empty());
            i = data.len();
        }
    }
    assert(data@.skip(i as int) =~= Seq::<u8>::empty());
    out
}

/// Base64 text is four characters for every three bytes or part of three.
pub proof fn lemma_base64_len(d: Seq<u8>)
    ensures
        base64(d).len() == 4 * ((d.len() + 2) / 3),
    decreases d.len(),
{
    if d.len() > 3 {
        lemma_base64_len(d.skip(3));
    }
}


/// Value of an ASCII hexadecimal digit byte.
pub open spec fn hex_byte(b: u8) -> Option<u8> {
    if 48 <= b && b <= 57 {
        Some((b - 48) as u8)
    } else if 97 <= b && b <= 102 {
        Some((b - 87) as u8)
    } else if 65 <= b && b <= 70 {
        Some((b - 55) as u8)
    } else {
        None
    }
}

/// What std's `u8::from_str_radix(.., 16)` gives for the two-byte text
/// `a b`: a value for two hexadecimal digits, or for `+` and one digit.
pub open spec fn pct_pair(a: u8, b: u8) -> Option<u8> {
    match (hex_byte(a), hex_byte(b)) {
        (Some(x), Some(y)) => Some((x * 16 + y) as u8),
        _ => if a == 43 {
            hex_byte(b)
        } else {
            None
        },
    }
}

/// The bytes of `b` with every `%` followed by two hexadecimal digits (or
/// `+` and one digit) replaced by the byte they spell; all else kept.
pub open spec fn pct_decoded(b: Seq<u8>) -> Seq<u8>
    decreases b.len(),
{
    if b.len() == 0 {
        seq![]
    } else if b[0] == 37 && 2 < b.len() && pct_pair(b[1], b[2]) is Some {
        seq![pct_pair(b[1], b[2]).unwrap()] + pct_decoded(b.skip(3))
    } else {
        seq![b[0]] + pct_decoded(b.skip(1))
    }
}

/// What std's `String::from_utf8_lossy` gives for these bytes.
pub uninterp spec fn utf8_lossy(b: Seq<u8>) -> Seq<char>;

/// Calls std `String::from_utf8_lossy` and takes the result as an owned
/// string. The result is named `utf8_lossy` of the bytes; for valid UTF-8,
/// std documents that the text is returned as it is, which is all the
/// contract says of it beyond the name.
#[verifier::external_body]
fn lossy_string(b: &[u8]) -> (r: String)
    ensures
        r@ == utf8_lossy(b@),
        vstd::utf8::valid_utf8(b@) ==> r@ == vstd::utf8::decode_utf8(b@),
{
    String::from_utf8_lossy(b).into_owned()
}

/// The text a query component decodes to.
pub open spec fn pct_text(s: Seq<char>) -> Seq<char> {
    utf8_lossy(pct_decoded(vstd::utf8::encode_utf8(s)))
}

proof fn lemma_pct_step(b: Seq<u8>, i: int, k: int)
    requires
        0 <= i < i + k <= b.len(),
    ensures
        b.skip(i).skip(k) == b.skip(i + k),
{
    assert(b.skip(i).skip(k) =~= b.skip(i + k));
}

fn hex_digit_byte(b: u8) -> (r: Option<u8>)
    ensures
        r == hex_byte(b),
{
    if 48 <= b && b <= 57 {
        Some(b - 48)
    } else if 97 <= b && b <= 102 {
        Some(b - 87)
    } else if 65 <= b && b <= 70 {
        Some(b - 55)
    } else {
        None
    }
}

fn pair_byte(a: u8, b: u8) -> (r: Option<u8>)
    ensures
        r == pct_pair(a, b),
{
    match (hex_digit_byte(a), hex_digit_byte(b)) {
        (Some(x), Some(y)) => {
            assert(x < 16 && y < 16);
            Some(x * 16 + y)
        },
        _ => if a == 43 {
            hex_digit_byte(b)
        } else {
            None
        },
    }
}

/// Decodes `%XX` escapes (two hexadecimal digits, or `+` and one digit)
/// into bytes and reads the result as UTF-8, invalid sequences replaced.
pub fn percent_decode(s: &str) -> (r: String)
    ensures
        r@ == pct_text(s@),
        vstd::utf8::valid_utf8(pct_decoded(vstd::utf8::encode_utf8(s@))) ==> r@ == vstd::utf8::decode_utf8(
            pct_decoded(vstd::utf8::encode_utf8(s@)),
        ),
        !vstd::utf8::encode_utf8(s@).contains(37u8) ==> r@ == s@,
{
    let bytes = s.as_bytes();
    let ghost b = bytes@;
    let mut out: Vec<u8> = Vec::new();
    let mut i: usize = 0;
    assert(b.skip(0) == b);
    while i < bytes.len()
        invariant
            i <= bytes.len(),
            b == bytes@,
            out@ + pct_decoded(b.skip(i as int)) == pct_decoded(b),
        decreases bytes.len() - i,
    {
        let ghost r = b.skip(i as int);
        let ghost o0 = out@;
        assert(r[0] == bytes[i as int]);
        if bytes[i] == 37 && bytes.len() - i > 2 {
            assert(r[1] == bytes[i + 1] && r[2] == bytes[i + 2]);
            match pair_byte(bytes[i + 1], bytes[i + 2]) {
                Some(v) => {
                    out.push(v);
                    proof { lemma_pct_step(b, i as int, 3); }
                    assert(out@ + pct_decoded(b.skip(i + 3)) =~= o0 + pct_decoded(r));
                    i = i + 3;
                    continue;
                },
                None => {},
            }
        }
        out.push(bytes[i]);
        proof { lemma_pct_step(b, i as int, 1); }
        assert(out@ + pct_decoded(b.skip(i + 1)) =~= o0 + pct_decoded(r));
        i = i + 1;
    }
    assert(b.skip(i as int) =~= Seq::<u8>::empty());
    assert(out@ =~= pct_decoded(b));
    proof {
        if !b.contains(37u8) {
            lemma_no_escape_unchanged(b);
            vstd::utf8::encode_utf8_valid_utf8(s@);
            vstd::utf8::encode_utf8_decode_utf8(s@);
        }
    }
    lossy_string(out.as_slice())
}

/// Bytes without `%` decode to themselves.
proof fn lemma_no_escape_unchanged(b: Seq<u8>)
    requires
        !b.contains(37u8),
    ensures
        pct_decoded(b) == b,
    decreases b.len(),
{
    if b.len() > 0 {
        assert(b[0] != 37u8) by {
            if b[0] == 37u8 {
                assert(b.contains(37u8));
            }
        }
        assert(!b.skip(1).contains(37u8)) by {
            if b.skip(1).contains(37u8) {
                let j = choose|j: int| 0 <= j < b.skip(1).len() && b.skip(1)[j] == 37u8;
                assert(b[j + 1] == 37u8);
            }
        }
        lemma_no_escape_unchanged(b.skip(1));
        assert(seq![b[0]] + b.skip(1) =~= b);
    }
}


/// The index of the first `c` in `s`.
pub open spec fn first_index(s: Seq<char>, c: char) -> Option<int>
    decreases s.len(),
{
    if s.len() == 0 {
        None
    } else if s[0] == c {
        Some(0)
    } else {
        match first_index(s.drop_first(), c) {
            Some(i) => Some(i + 1),
            None => None,
        }
    }
}

/// The index of the first `c` in `v`.
fn find_char(v: &Vec<char>, c: char) -> (r: Option<usize>)
    ensures
        match r {
            Some(i) => first_index(v@, c) == Some(i as int) && i < v@.len() && v@[i as int] == c,
            None => first_index(v@, c) is None,
        },
{
    let mut i: usize = 0;
    assert(v@.skip(0) == v@);
    while i < v.len()
        invariant
            i <= v.len(),
            forall|k: int| 0 <= k < i ==> v@[k] != c,
            first_index(v@, c) == match first_index(v@.skip(i as int), c) {
                Some(j) => Some(j + i),
                None => None,
            },
        decreases v.len() - i,
    {
        assert(v@.skip(i as int)[0] == v@[i as int]);
        if v[i] == c {
            return Some(i);
        }
        assert(v@.skip(i as int).drop_first() =~= v@.skip(i + 1));
        i = i + 1;
    }
    assert(v@.skip(i as int).len() == 0);
    None
}

/// A `key=value` piece split at its first `=`.
pub open spec fn kv_of(p: Seq<char>) -> Option<(Seq<char>, Seq<char>)> {
    match first_index(p, '=') {
        Some(i) => Some((p.take(i), p.skip(i + 1))),
        None => None,
    }
}

/// The decoded `(key, value)` pairs of the pieces that hold an `=`, in order.
pub open spec fn query_pairs(ps: Seq<Seq<char>>) -> Seq<(Seq<char>, Seq<char>)>
    decreases ps.len(),
{
    if ps.len() == 0 {
        seq![]
    } else {
        let rest = query_pairs(ps.drop_last());
        match kv_of(ps.last()) {
            Some(kv) => rest.push((pct_text(kv.0), pct_text(kv.1))),
            None => rest,
        }
    }
}

/// The value of the last pair whose key is `key`.
pub open spec fn last_value(ps: Seq<(Seq<char>, Seq<char>)>, key: Seq<char>) -> Option<Seq<char>>
    decreases ps.len(),
{
    if ps.len() == 0 {
        None
    } else if ps.last().0 == key {
        Some(ps.last().1)
    } else {
        last_value(ps.drop_last(), key)
    }
}

/// The parameters of a query string: `key=value` pairs separated by `&`,
/// percent-decoded; a later pair overrides an earlier one of the same key.
pub struct Query {
    pairs: Vec<(String, String)>,
}

impl View for Query {
    type V = Seq<(Seq<char>, Seq<char>)>;

    closed spec fn view(&self) -> Seq<(Seq<char>, Seq<char>)> {
        self.pairs@.map_values(|p: (String, String)| (p.0@, p.1@))
    }
}

/// The characters of an optional string.
pub open spec fn opt_chars(o: Option<String>) -> Option<Seq<char>> {
    match o {
        Some(s) => Some(s@),
        None => None,
    }
}

impl Query {
    /// The value of `key`: that of the last pair with this key.
    pub fn get(&self, key: &str) -> (r: Option<String>)
        ensures
            opt_chars(r) == last_value(self@, key@),
    {
        let ghost pv = self@;
        let mut i = self.pairs.len();
        assert(pv.take(i as int) == pv);
        while i > 0
            invariant
                i <= self.pairs.len(),
                pv == self@,
                last_value(pv, key@) == last_value(pv.take(i as int), key@),
            decreases i,
        {
            assert(pv.take(i as int).last() == (self.pairs@[i - 1].0@, self.pairs@[i - 1].1@));
            assert(pv.take(i as int).drop_last() == pv.take(i - 1));
            if text_eq(self.pairs[i - 1].0.as_str(), key) {
                return Some(self.pairs[i - 1].1.clone());
            }
            i = i - 1;
        }
        None
    }
}

/// The key and value of a piece, split at its first `=`, as strings.
fn split_piece(p: &Vec<char>, j: usize) -> (r: (String, String))
    requires
        j < p@.len(),
    ensures
        r.0@ == p@.take(j as int),
        r.1@ == p@.skip(j + 1),
{
    let mut kchars: Vec<char> = Vec::new();
    let mut vchars: Vec<char> = Vec::new();
    let mut t: usize = 0;
    while t < p.len()
        invariant
            t <= p.len(),
            j < p.len(),
            kchars@ == p@.take(if t < j { t as int } else { j as int }),
            vchars@ == (if t <= j { Seq::<char>::empty() } else { p@.subrange(j + 1, t as int) }),
        decreases p.len() - t,
    {
        if t < j {
            kchars.push(p[t]);
            assert(p@.take(t + 1) == p@.take(t as int).push(p@[t as int]));
        } else if t > j {
            vchars.push(p[t]);
            assert(p@.subrange(j + 1, t + 1) == p@.subrange(j + 1, t as int).push(p@[t as int]));
        }
        t = t + 1;
    }
    assert(vchars@ == p@.skip(j + 1));
    (crate::strutil::string_of_chars(&kchars), crate::strutil::string_of_chars(&vchars))
}

/// Parses `q` into its parameters: each `&`-separated piece that holds an
/// `=` gives the percent-decoded text before it and after it.
pub fn parse_query(q: &str) -> (r: Query)
    ensures
        r@ == query_pairs(crate::textscan::split_on(q@, '&')),
{
    let cs = crate::strutil::str_chars(q);
    let pieces = crate::textscan::split_chars(&cs, '&');
    let ghost ps = crate::strutil::views(pieces@);
    let mut out = Query { pairs: Vec::new() };
    let mut i: usize = 0;
    assert(out@ =~= Seq::<(Seq<char>, Seq<char>)>::empty());
    while i < pieces.len()
        invariant
            i <= pieces.len(),
            ps == crate::strutil::views(pieces@),
            ps == crate::textscan::split_on(q@, '&'),
            out@ == query_pairs(ps.take(i as int)),
        decreases pieces.len() - i,
    {
        let p = &pieces[i];
        assert(ps[i as int] == p@);
        assert(ps.take(i + 1).drop_last() == ps.take(i as int));
        assert(ps.take(i + 1).last() == p@);
        let ghost kv = kv_of(ps[i as int]);
        match find_char(p, '=') {
            Some(j) => {
                let (k, v) = split_piece(p, j);
                let kd = percent_decode(k.as_str());
                let vd = percent_decode(v.as_str());
                let ghost before = out@;
                out.pairs.push((kd, vd));
                assert(out@ =~= before.push((kd@, vd@)));
            },
            None => {},
        }
        i = i + 1;
    }
    assert(ps.take(pieces.len() as int) == ps);
    out
}


/// The first line of a request (empty when there is none).
pub open spec fn request_line(req: Seq<char>) -> Seq<char> {
    let ls = crate::textscan::lines(req);
    if ls.len() > 0 {
        ls[0]
    } else {
        seq![]
    }
}

/// The request method: the first word of the request line, `GET` by default.
pub open spec fn req_method(req: Seq<char>) -> Seq<char> {
    let ws = crate::strutil::words(request_line(req));
    if ws.len() > 0 {
        ws[0]
    } else {
        "GET"@
    }
}

/// The request target: the second word of the request line, `/` by default.
pub open spec fn req_target(req: Seq<char>) -> Seq<char> {
    let ws = crate::strutil::words(request_line(req));
    if ws.len() > 1 {
        ws[1]
    } else {
        "/"@
    }
}

/// `s` begins with `p`.
pub open spec fn begins_with(s: Seq<char>, p: Seq<char>) -> bool {
    p.len() <= s.len() && s.take(p.len() as int) == p
}

/// The query string of a target: what follows its first `?`, or nothing.
pub open spec fn query_part(t: Seq<char>) -> Seq<char> {
    match first_index(t, '?') {
        Some(i) => t.skip(i + 1),
        None => seq![],
    }
}

/// The parameters of a target's query string.
pub open spec fn target_params(t: Seq<char>) -> Seq<(Seq<char>, Seq<char>)> {
    query_pairs(crate::textscan::split_on(query_part(t), '&'))
}

/// A parameter's value, or `default` when absent.
pub open spec fn param_or(ps: Seq<(Seq<char>, Seq<char>)>, key: Seq<char>, default: Seq<char>) -> Seq<char> {
    match last_value(ps, key) {
        Some(v) => v,
        None => default,
    }
}

/// What a request asks for.
pub enum Route {
    /// The prompt form page.
    Form,
    /// The interactive demo page.
    Demo,
    /// A document for `prompt` in `format`.
    Render { prompt: String, format: String },
    /// Anything else.
    NotFound,
}

/// What a request asks for, by value.
pub enum RouteView {
    Form,
    Demo,
    Render { prompt: Seq<char>, format: Seq<char> },
    NotFound,
}

impl View for Route {
    type V = RouteView;

    open spec fn view(&self) -> RouteView {
        match self {
            Route::Form => RouteView::Form,
            Route::Demo => RouteView::Demo,
            Route::Render { prompt, format } => RouteView::Render { prompt: prompt@, format: format@ },
            Route::NotFound => RouteView::NotFound,
        }
    }
}

/// The route of a request: `GET /` the form, `GET /demo` the demo, a `GET`
/// of a target starting `/render` a document (parameters `prompt`, default
/// empty, and `format`, default `svg`), anything else not found.
pub open spec fn route_of(req: Seq<char>) -> RouteView {
    let m = req_method(req);
    let t = req_target(req);
    if m == "GET"@ && t == "/"@ {
        RouteView::Form
    } else if m == "GET"@ && t == "/demo"@ {
        RouteView::Demo
    } else if m == "GET"@ && begins_with(t, "/render"@) {
        RouteView::Render {
            prompt: param_or(target_params(t), "prompt"@, seq![]),
            format: param_or(target_params(t), "format"@, "svg"@),
        }
    } else {
        RouteView::NotFound
    }
}

/// The reply's content type: for a target starting `/render`, JSON for the
/// `all` format, HTML for `preview`, else the document's media type; HTML for
/// any other target.
pub open spec fn reply_type(req: Seq<char>) -> Seq<char> {
    let t = req_target(req);
    if begins_with(t, "/render"@) {
        let f = param_or(target_params(t), "format"@, "svg"@);
        if f == "all"@ {
            "application/json"@
        } else if f == "preview"@ {
            "text/html; charset=utf-8"@
        } else {
            media_type(f)
        }
    } else {
        "text/html; charset=utf-8"@
    }
}

/// The decision for one request: its route and the reply's content type.
pub struct Request {
    pub route: Route,
    pub content_type: String,
}

fn chars_begin_with(v: &Vec<char>, p: &str) -> (r: bool)
    ensures
        r == begins_with(v@, p@),
{
    let pv = crate::strutil::str_chars(p);
    if pv.len() > v.len() {
        return false;
    }
    let mut i: usize = 0;
    while i < pv.len()
        invariant
            i <= pv.len(),
            pv.len() <= v.len(),
            pv@ == p@,
            forall|k: int| 0 <= k < i ==> v@[k] == pv@[k],
        decreases pv.len() - i,
    {
        if v[i] != pv[i] {
            assert(v@.take(pv.len() as int)[i as int] != p@[i as int]);
            return false;
        }
        i = i + 1;
    }
    assert(v@.take(pv.len() as int) =~= p@);
    true
}

fn param_value(q: &Query, key: &str, default: &str) -> (r: String)
    ensures
        r@ == param_or(q@, key@, default@),
{
    match q.get(key) {
        Some(v) => v,
        None => String::from_str(default),
    }
}

/// Decides what `req` (the request text) asks for and the reply's content
/// type.
pub fn route_request(req: &str) -> (r: Request)
    ensures
        r.route@ == route_of(req@),
        r.content_type@ == reply_type(req@),
{
    proof {
        reveal_strlit("GET");
        reveal_strlit("/");
        reveal_strlit("/demo");
        reveal_strlit("/render");
        reveal_strlit("all");
        reveal_strlit("preview");
        reveal_strlit("");
    }
    let cs = crate::strutil::str_chars(req);
    let ls = crate::textscan::lines_of(&cs);
    let line: Vec<char> = if ls.len() > 0 { ls[0].clone() } else { Vec::new() };
    assert(line@ == request_line(req@));
    let ws = crate::strutil::split_whitespace(&line);
    let method: String = if ws.len() > 0 { crate::strutil::string_of_chars(&ws[0]) } else { String::from_str("GET") };
    let target_chars: Vec<char> = if ws.len() > 1 { ws[1].clone() } else { crate::strutil::str_chars("/") };
    let target = crate::strutil::string_of_chars(&target_chars);
    assert(method@ == req_method(req@));
    assert(target@ == req_target(req@));
    let is_render = chars_begin_with(&target_chars, "/render");
    let mut params = Query { pairs: Vec::new() };
    if is_render {
        let query_chars: Vec<char> = match find_char(&target_chars, '?') {
            Some(i) => {
                let mut qv: Vec<char> = Vec::new();
                let mut t = i + 1;
                while t < target_chars.len()
                    invariant
                        i < t <= target_chars.len(),
                        qv@ == target_chars@.subrange(i + 1, t as int),
                    decreases target_chars.len() - t,
                {
                    qv.push(target_chars[t]);
                    assert(target_chars@.subrange(i + 1, t + 1) == target_chars@.subrange(i + 1, t as int).push(target_chars@[t as int]));
                    t = t + 1;
                }
                assert(qv@ == target_chars@.skip(i + 1));
                qv
            },
            None => Vec::new(),
        };
        assert(query_chars@ == query_part(target@));
        let query = crate::strutil::string_of_chars(&query_chars);
        params = parse_query(query.as_str());
    }
    assert(is_render ==> params@ == target_params(req_target(req@)));
    let is_get = text_eq(method.as_str(), "GET");
    let route = if is_get && text_eq(target.as_str(), "/") {
        Route::Form
    } else if is_get && text_eq(target.as_str(), "/demo") {
        Route::Demo
    } else if is_get && is_render {
        let prompt = param_value(&params, "prompt", "");
        let format = param_value(&params, "format", "svg");
        assert(prompt@ == param_or(target_params(req_target(req@)), "prompt"@, seq![]));
        assert(format@ == param_or(target_params(req_target(req@)), "format"@, "svg"@));
        assert(method@ == "GET"@);
        assert(target@ != "/"@);
        assert(target@ != "/demo"@);
        Route::Render { prompt, format }
    } else {
        Route::NotFound
    };
    assert(route@ == route_of(req@));
    let content_type = if is_render {
        let f = param_value(&params, "format", "svg");
        if text_eq(f.as_str(), "all") {
            String::from_str("application/json")
        } else if text_eq(f.as_str(), "preview") {
            String::from_str("text/html; charset=utf-8")
        } else {
            String::from_str(content_type(f.as_str()))
        }
    } else {
        String::from_str("text/html; charset=utf-8")
    };
    Request { route, content_type }
}

} // verus!
