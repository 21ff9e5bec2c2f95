//! The Thai face embedded in PDF output: glyph ids looked up with
//! `ab_glyph`, and text written as a hex CID string (Identity-H encoding,
//! CID = glyph id, so a missing glyph is CID 0, `.notdef`).

use crate::strutil::push_char;
use vstd::prelude::*;

verus! {

#[verifier::external_type_specification]
#[verifier::external_body]
pub struct ExFontArc(ab_glyph::FontArc);

/// Font metrics of the embedded Noto Sans Thai face (hhea and head tables).
pub const FONT_ASCENT: i32 = 1069;
pub const FONT_DESCENT: i32 = -293;
pub const FONT_CAPHEIGHT: i32 = 700;

/// The data opens with one of the four font signatures that ttf-parser
/// accepts: TrueType `00 01 00 00` or `true`, OpenType `OTTO`, or a font
/// collection `ttcf`.
pub open spec fn has_font_magic(d: Seq<u8>) -> bool {
    &&& d.len() >= 4
    &&& {
        let m = d.take(4);
        ||| m == seq![0x00u8, 0x01u8, 0x00u8, 0x00u8]
        ||| m == seq![0x74u8, 0x72u8, 0x75u8, 0x65u8]
        ||| m == seq![0x4Fu8, 0x54u8, 0x54u8, 0x4Fu8]
        ||| m == seq![0x74u8, 0x74u8, 0x63u8, 0x66u8]
    }
}

/// Whether ab_glyph's `FontArc::try_from_vec` accepts this data as a font
/// (a function of the bytes alone).
pub uninterp spec fn font_parses(data: Seq<u8>) -> bool;

/// Parses font data with ab_glyph's `FontArc::try_from_vec`; `None` when
/// ab_glyph rejects it. ab_glyph hands the data to ttf-parser's
/// `Face::parse`, which first reads a big-endian four-byte signature and
/// fails with `UnknownMagic` unless it is one of those of `has_font_magic`;
/// so a parsed font opens with one of them. Which data with such a
/// signature parse (the table directory and the `head`, `hhea` and `maxp`
/// tables must be sound) is only named, `font_parses`.
#[verifier::external_body]
fn font_from_vec(data: Vec<u8>) -> (r: Option<ab_glyph::FontArc>)
    ensures
        (r is Some) == font_parses(data@),
        r is Some ==> has_font_magic(data@),
{
    ab_glyph::FontArc::try_from_vec(data).ok()
}

/// A parsed font face together with the bytes it was parsed from. Only
/// `thai_font` builds one, so `font` is always the face of `data`.
pub struct ThaiFace {
    data: Vec<u8>,
    font: ab_glyph::FontArc,
}

impl View for ThaiFace {
    type V = Seq<u8>;

    /// The font file the face was read from.
    closed spec fn view(&self) -> Seq<u8> {
        self.data@
    }
}

impl ThaiFace {
    /// The parsed face, for drawing with ab_glyph.
    pub fn font(&self) -> &ab_glyph::FontArc {
        &self.font
    }

    /// The font file the face was read from.
    pub fn bytes(&self) -> (r: &[u8])
        ensures
            r@ == self@,
    {
        self.data.as_slice()
    }
}

/// The glyph id that ab_glyph's `Font::glyph_id` gives for `c` in the font
/// parsed from the bytes `font` (0 when the font maps no glyph to it).
pub uninterp spec fn glyph_of(font: Seq<u8>, c: char) -> u16;

/// Looks up the glyph id of `c` with ab_glyph's `Font::glyph_id` on the
/// face's parsed font. The result is named `glyph_of` of the face's bytes
/// and `c`; which id a font gives is left to the font's cmap table.
#[verifier::external_body]
fn glyph_id(face: &ThaiFace, c: char) -> (r: u16)
    ensures
        r == glyph_of(face@, c),
{
    ab_glyph::Font::glyph_id(&face.font, c).0
}

/// The face read from TrueType/OpenType data; `None` when the data does not
/// parse as a font, and in particular whenever it does not open with a font
/// signature. A face keeps the bytes it was read from.
pub fn thai_font(data: Vec<u8>) -> (r: Option<ThaiFace>)
    ensures
        (r is Some) == font_parses(data@),
        !has_font_magic(data@) ==> r is None,
        r matches Some(f) ==> f@ == data@,
{
    let bytes = data.clone();
    match font_from_vec(data) {
        Some(font) => Some(ThaiFace { data: bytes, font }),
        None => None,
    }
}

/// The upper-case hexadecimal digit of `d` (`d < 16`).
pub open spec fn hex_digit(d: int) -> char {
    if d < 10 {
        (48 + d) as char
    } else {
        (55 + d) as char
    }
}

/// Four upper-case hexadecimal digits of `g`, most significant first.
pub open spec fn hex4(g: u16) -> Seq<char> {
    seq![hex_digit(g as int / 4096), hex_digit((g as int / 256) % 16), hex_digit((g as int / 16) % 16), hex_digit(g as int % 16)]
}

/// The hex digits of a list of glyph ids, four per id.
pub open spec fn hex_ids(gs: Seq<u16>) -> Seq<char>
    decreases gs.len(),
{
    if gs.len() == 0 {
        seq![]
    } else {
        hex_ids(gs.drop_last()) + hex4(gs.last())
    }
}

/// A PDF hex string of CIDs: `<`, four hex digits per id, `>`.
pub open spec fn cid_string(gs: Seq<u16>) -> Seq<char> {
    seq!['<'] + hex_ids(gs) + seq!['>']
}

fn hex_char(d: u16) -> (c: char)
    requires
        d < 16,
    ensures
        c == hex_digit(d as int),
{
    if d < 10 {
        ((48 + d) as u8) as char
    } else {
        ((55 + d) as u8) as char
    }
}

fn push_hex4(out: &mut String, g: u16)
    ensures
        final(out)@ == old(out)@ + hex4(g),
{
    let ghost start = out@;
    push_char(out, hex_char(g / 4096));
    push_char(out, hex_char((g / 256) % 16));
    push_char(out, hex_char((g / 16) % 16));
    push_char(out, hex_char(g % 16));
    assert(out@ =~= start + hex4(g));
}

/// The PDF hex string of a list of CIDs.
pub fn cid_hex(gids: &[u16]) -> (r: String)
    ensures
        r@ == cid_string(gids@),
{
    let mut out = String::new();
    push_char(&mut out, '<');
    let mut i: usize = 0;
    while i < gids.len()
        invariant
            i <= gids.len(),
            out@ == seq!['<'] + hex_ids(gids@.take(i as int)),
        decreases gids.len() - i,
    {
        assert(gids@.take(i + 1).drop_last() == gids@.take(i as int));
        push_hex4(&mut out, gids[i]);
        i = i + 1;
    }
    assert(gids@.take(gids.len() as int) == gids@);
    push_char(&mut out, '>');
    out
}

/// The glyph ids of the characters of `text` in the font `font`.
pub open spec fn glyphs_of(font: Seq<u8>, text: Seq<char>) -> Seq<u16> {
    text.map_values(|c: char| glyph_of(font, c))
}

/// Encodes `text` as a PDF hex CID string for `face`: one glyph id per
/// character, looked up in the font, four hex digits each.
pub fn encode_cid_hex(face: &ThaiFace, text: &str) -> (r: String)
    ensures
        r@ == cid_string(glyphs_of(face@, text@)),
{
    let mut gids: Vec<u16> = Vec::new();
    for c in it: text.chars()
        invariant
            it.seq() == text@,
            gids@ == glyphs_of(face@, text@.take(it.index() as int)),
    {
        let ghost i = it.index() as int;
        gids.push(glyph_id(face, c));
        assert(gids@ =~= glyphs_of(face@, text@.take(i + 1)));
    }
    assert(text@.take(text@.len() as int) == text@);
    cid_hex(gids.as_slice())
}


/// Escape of one character in a PDF literal string: `\`, `(` and `)` get a
/// backslash.
pub open spec fn pdf_escape_char(c: char) -> Seq<char> {
    if c == '\\' {
        seq!['\\', '\\']
    } else if c == '(' {
        seq!['\\', '(']
    } else if c == ')' {
        seq!['\\', ')']
    } else {
        seq![c]
    }
}

/// Escape of a text for a PDF literal string.
pub open spec fn pdf_escape(s: Seq<char>) -> Seq<char>
    decreases s.len(),
{
    if s.len() == 0 {
        seq![]
    } else {
        pdf_escape(s.drop_last()) + pdf_escape_char(s.last())
    }
}

/// Escapes `\`, `(` and `)` for a PDF literal string.
pub fn sanitize_pdf_str(input: &str) -> (r: String)
    ensures
        r@ == pdf_escape(input@),
{
    let mut out = String::new();
    for c in it: input.chars()
        invariant
            it.seq() == input@,
            out@ == pdf_escape(input@.take(it.index() as int)),
    {
        let ghost i = it.index() as int;
        assert(input@.take(i + 1).drop_last() == input@.take(i));
        if c == '\\' {
            push_char(&mut out, '\\');
            push_char(&mut out, '\\');
        } else if c == '(' {
            push_char(&mut out, '\\');
            push_char(&mut out, '(');
        } else if c == ')' {
            push_char(&mut out, '\\');
            push_char(&mut out, ')');
        } else {
            push_char(&mut out, c);
        }
    }
    assert(input@.take(input@.len() as int) == input@);
    out
}

/// The operand of a PDF text-show operator for `text`: a hex CID string for
/// the Thai face when one is embedded (`thai`) and the text holds a
/// non-ASCII character, else a literal string.
pub fn tj_operand(text: &str, thai: Option<&ThaiFace>) -> (r: String)
    ensures
        (thai.is_some() && crate::font::has_non_ascii_spec(text@)) ==> r@ == cid_string(
            glyphs_of(thai.unwrap()@, text@),
        ),
        !(thai.is_some() && crate::font::has_non_ascii_spec(text@)) ==> r@ == seq!['('] + pdf_escape(text@) + seq![')'],
{
    match thai {
        Some(f) => {
            if crate::font::has_non_ascii(text) {
                return encode_cid_hex(f, text);
            }
        },
        None => {},
    }
    let mut r = String::new();
    push_char(&mut r, '(');
    let esc = sanitize_pdf_str(text);
    crate::strutil::push_str(&mut r, esc.as_str());
    push_char(&mut r, ')');
    r
}

} // verus!
