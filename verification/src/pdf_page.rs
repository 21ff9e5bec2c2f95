//! The PDF page content stream: the order of the drawing steps, the font of
//! each text (Helvetica `F1`, or the embedded Thai face `F2` for non-ASCII
//! text when the face is embedded) and its show operand (an escaped literal
//! string, or the hex string of the text's glyph ids). Coordinates, colors
//! and path geometry are floating point; the caller formats them into a
//! placement, and the page puts each piece where it belongs.

use crate::font::{has_non_ascii, has_non_ascii_spec};
use crate::pdf_font::{cid_string, glyphs_of, pdf_escape, tj_operand, ThaiFace};
use crate::router::{InfographicLayoutSpec, LayoutSpecView, MetricView, SectionView};
use crate::strutil::{dec, push_dec, push_str, to_uppercase, uppercase};
use vstd::prelude::*;

verus! {

/// Where one metric card is drawn: its card graphics, the color and
/// position lines of its value and label texts (`r g b rg` and `x y Td`,
/// each ending in a newline), the icon's stroke color `r g b`, and the
/// icon's path operators.
pub struct PdfCardPlace {
    pub card: String,
    pub value: String,
    pub label: String,
    pub icon_color: String,
    pub icon_path: String,
}

/// Where one section card is drawn: its graphics (connector and card) and
/// the color and position lines of its heading and description texts.
pub struct PdfSectionPlace {
    pub graphics: String,
    pub title: String,
    pub description: String,
}

/// The formatted geometry of a page: page and title-bar graphics, the color
/// and position lines of the title and subtitle, one place per metric card
/// (`None` for a card too narrow to draw), the chart's operators, and one
/// place per section.
pub struct PdfPlacement {
    pub background: String,
    pub title: String,
    pub subtitle: String,
    pub cards: Vec<Option<PdfCardPlace>>,
    pub chart: String,
    pub sections: Vec<PdfSectionPlace>,
}

/// One text-show block: font `font` at `size`, then the caller's color and
/// position lines, the operand and `Tj`.
pub open spec fn text_block(font: Seq<char>, size: Seq<char>, place: Seq<char>, operand: Seq<char>) -> Seq<char> {
    "BT\n/"@ + font + " "@ + size + " Tf\n"@ + place + operand + " Tj\nET\n"@
}

/// Whether `t` is shown with the embedded Thai face.
pub open spec fn shows_thai(t: Seq<char>, thai: bool) -> bool {
    thai && has_non_ascii_spec(t)
}

/// The show operand of `t`: the hex string of its glyph ids in `face` when
/// it is shown with the Thai face, else an escaped literal string.
pub open spec fn operand_of(t: Seq<char>, thai: bool, face: Seq<u8>) -> Seq<char> {
    if shows_thai(t, thai) {
        cid_string(glyphs_of(face, t))
    } else {
        seq!['('] + pdf_escape(t) + seq![')']
    }
}

/// The text block that shows `t` at `size` with the placement `place`.
pub open spec fn shown(t: Seq<char>, size: Seq<char>, place: Seq<char>, thai: bool, face: Seq<u8>) -> Seq<char> {
    text_block(if shows_thai(t, thai) { "F2"@ } else { "F1"@ }, size, place, operand_of(t, thai, face))
}

/// One metric card: nothing when it is not drawn; else its graphics, its
/// value at 18 pt, its upper-cased label at 9 pt, and its icon stroked with
/// a 1.5 pt line.
pub open spec fn card_part(m: MetricView, p: Option<PdfCardPlace>, thai: bool, face: Seq<u8>) -> Seq<char> {
    match p {
        None => seq![],
        Some(c) => c.card@ + shown(m.value, "18"@, c.value@, thai, face) + shown(uppercase(m.label), "9"@, c.label@, thai, face)
            + c.icon_color@ + " RG 1.5 w\n"@ + c.icon_path@,
    }
}

/// The first `k` metric cards.
pub open spec fn cards_part(ms: Seq<MetricView>, ps: Seq<Option<PdfCardPlace>>, k: nat, thai: bool, face: Seq<u8>) -> Seq<char>
    decreases k,
{
    if k == 0 {
        seq![]
    } else {
        cards_part(ms, ps, (k - 1) as nat, thai, face) + card_part(ms[k - 1], ps[k - 1], thai, face)
    }
}

/// The heading of a section: its step number, `. ` and its title.
pub open spec fn section_heading(s: SectionView) -> Seq<char> {
    dec(s.step_number) + ". "@ + s.title
}

/// One section: its graphics, its heading at 13 pt and its description at
/// 10 pt.
pub open spec fn section_part(s: SectionView, p: PdfSectionPlace, thai: bool, face: Seq<u8>) -> Seq<char> {
    p.graphics@ + shown(section_heading(s), "13"@, p.title@, thai, face) + shown(s.description, "10"@, p.description@, thai, face)
}

/// The first `k` sections.
pub open spec fn sections_part(ss: Seq<SectionView>, ps: Seq<PdfSectionPlace>, k: nat, thai: bool, face: Seq<u8>) -> Seq<char>
    decreases k,
{
    if k == 0 {
        seq![]
    } else {
        sections_part(ss, ps, (k - 1) as nat, thai, face) + section_part(ss[k - 1], ps[k - 1], thai, face)
    }
}

/// The page content of `s`: background, title at 22 pt and subtitle at
/// 11 pt, the metric cards, the chart, the sections. `thai` says whether
/// the Thai face (read from `face`) is embedded.
pub open spec fn page_content(s: LayoutSpecView, p: PdfPlacement, thai: bool, face: Seq<u8>) -> Seq<char> {
    p.background@ + shown(s.title, "22"@, p.title@, thai, face)
        + (match s.subtitle {
            Some(t) => shown(t, "11"@, p.subtitle@, thai, face),
            None => seq![],
        })
        + cards_part(s.metrics, p.cards@, s.metrics.len(), thai, face)
        + p.chart@
        + sections_part(s.sections, p.sections@, s.sections.len(), thai, face)
}

/// Appends the block that shows `text` at `size` with the placement `place`.
fn push_shown(out: &mut String, text: &str, size: &str, place: &str, thai: Option<&ThaiFace>)
    ensures
        final(out)@ == old(out)@ + shown(text@, size@, place@, thai.is_some(), match thai {
            Some(f) => f@,
            None => Seq::<u8>::empty(),
        }),
{
    let ghost face = match thai {
        Some(f) => f@,
        None => Seq::<u8>::empty(),
    };
    let ghost start = out@;
    let f2 = thai.is_some() && has_non_ascii(text);
    push_str(out, "BT\n/");
    if f2 {
        push_str(out, "F2");
    } else {
        push_str(out, "F1");
    }
    push_str(out, " ");
    push_str(out, size);
    push_str(out, " Tf\n");
    push_str(out, place);
    let op = tj_operand(text, thai);
    push_str(out, op.as_str());
    push_str(out, " Tj\nET\n");
    assert(op@ == operand_of(text@, thai.is_some(), face));
    assert(out@ =~= start + shown(text@, size@, place@, thai.is_some(), face));
}

/// Builds the page content of `spec` with the placement `place`; `thai`,
/// when given, is the embedded Thai face.
#[verifier::spinoff_prover]
#[verifier::rlimit(40)]
pub fn page_content_of(spec: &InfographicLayoutSpec, place: &PdfPlacement, thai: Option<&ThaiFace>) -> (r: String)
    requires
        place.cards@.len() == spec.metrics@.len(),
        place.sections@.len() == spec.sections@.len(),
    ensures
        r@ == page_content(spec@, *place, thai.is_some(), match thai {
            Some(f) => f@,
            None => Seq::<u8>::empty(),
        }),
{
    let ghost face = match thai {
        Some(f) => f@,
        None => Seq::<u8>::empty(),
    };
    let ghost sv = spec@;
    let ghost t = thai.is_some();
    let mut out = String::new();
    push_str(&mut out, place.background.as_str());
    push_shown(&mut out, spec.title.as_str(), "22", place.title.as_str(), thai);
    match &spec.subtitle {
        Some(s) => push_shown(&mut out, s.as_str(), "11", place.subtitle.as_str(), thai),
        None => {},
    }
    let ghost head = out@;
    let mut i: usize = 0;
    while i < spec.metrics.len()
        invariant
            i <= spec.metrics.len(),
            place.cards@.len() == spec.metrics@.len(),
            sv == spec@,
            t == thai.is_some(),
            face == (match thai {
                Some(f) => f@,
                None => Seq::<u8>::empty(),
            }),
            out@ == head + cards_part(sv.metrics, place.cards@, i as nat, t, face),
        decreases spec.metrics.len() - i,
    {
        let m = &spec.metrics[i];
        assert(sv.metrics[i as int] == m@);
        match &place.cards[i] {
            None => {},
            Some(c) => {
                push_str(&mut out, c.card.as_str());
                push_shown(&mut out, m.value.as_str(), "18", c.value.as_str(), thai);
                let lbl = to_uppercase(m.label.as_str());
                push_shown(&mut out, lbl.as_str(), "9", c.label.as_str(), thai);
                push_str(&mut out, c.icon_color.as_str());
                push_str(&mut out, " RG 1.5 w\n");
                push_str(&mut out, c.icon_path.as_str());
            },
        }
        i = i + 1;
    }
    push_str(&mut out, place.chart.as_str());
    let ghost mid = out@;
    let mut j: usize = 0;
    while j < spec.sections.len()
        invariant
            j <= spec.sections.len(),
            place.sections@.len() == spec.sections@.len(),
            sv == spec@,
            t == thai.is_some(),
            face == (match thai {
                Some(f) => f@,
                None => Seq::<u8>::empty(),
            }),
            out@ == mid + sections_part(sv.sections, place.sections@, j as nat, t, face),
        decreases spec.sections.len() - j,
    {
        let s = &spec.sections[j];
        assert(sv.sections[j as int] == s@);
        let p = &place.sections[j];
        push_str(&mut out, p.graphics.as_str());
        let mut heading = String::new();
        push_dec(&mut heading, s.step_number as u64);
        push_str(&mut heading, ". ");
        push_str(&mut heading, s.title.as_str());
        assert(heading@ =~= section_heading(s@));
        push_shown(&mut out, heading.as_str(), "13", p.title.as_str(), thai);
        push_shown(&mut out, s.description.as_str(), "10", p.description.as_str(), thai);
        j = j + 1;
    }
    assert(out@ =~= page_content(sv, *place, t, face));
    out
}

} // verus!
