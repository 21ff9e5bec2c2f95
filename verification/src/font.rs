//! Font declarations for SVG output: an embedded Inter face (WOFF2, base64)
//! and, when the text holds non-ASCII characters, an embedded Noto Sans Thai
//! face, so output renders the same offline.

use crate::router::{InfographicLayoutSpec, LayoutSpecView, MetricView};
use crate::strutil::push_str;
use vstd::prelude::*;

verus! {

/// Whether `text` holds a character outside ASCII.
pub open spec fn has_non_ascii_spec(text: Seq<char>) -> bool {
    exists|i: int| 0 <= i < text.len() && (#[trigger] text[i] as u32) >= 128
}

/// Detect whether a string contains non-ASCII (Thai/CJK) characters.
pub fn has_non_ascii(text: &str) -> (b: bool)
    ensures
        b == has_non_ascii_spec(text@),
{
    for c in it: text.chars()
        invariant
            it.seq() == text@,
            forall|k: int| 0 <= k < it.index() ==> (#[trigger] text@[k] as u32) < 128,
    {
        if (c as u32) >= 128 {
            assert((text@[it.index() as int] as u32) >= 128);
            return true;
        }
    }
    false
}

/// The font-family stack text for a given Thai need.
pub open spec fn font_stack_text(has_thai: bool) -> Seq<char> {
    if has_thai {
        "'Inter', 'Noto Sans Thai', 'Segoe UI', system-ui, -apple-system, sans-serif"@
    } else {
        "'Inter', 'Segoe UI', system-ui, -apple-system, sans-serif"@
    }
}

/// The font-family stack used across outputs (Inter first, Thai fallback).
pub fn font_stack(has_thai: bool) -> (s: String)
    ensures
        s@ == font_stack_text(has_thai),
{
    if has_thai {
        String::from_str("'Inter', 'Noto Sans Thai', 'Segoe UI', system-ui, -apple-system, sans-serif")
    } else {
        String::from_str("'Inter', 'Segoe UI', system-ui, -apple-system, sans-serif")
    }
}

/// The `@font-face` rule for the Inter face with this base64 payload.
pub open spec fn inter_face(b64: Seq<char>) -> Seq<char> {
    "@font-face { font-family: 'Inter'; src: url(data:font/woff2;base64,"@ + b64
        + ") format('woff2'); font-weight: 400; font-style: normal; }\n"@
}

/// The `@font-face` rule for the Noto Sans Thai face with this base64 payload.
pub open spec fn thai_face(b64: Seq<char>) -> Seq<char> {
    "@font-face { font-family: 'Noto Sans Thai'; src: url(data:font/truetype;base64,"@ + b64
        + ") format('truetype'); font-weight: 400; font-style: normal; }\n"@
}

/// The style block for the given payloads.
pub open spec fn font_style_text(has_thai: bool, inter_b64: Seq<char>, thai_b64: Seq<char>) -> Seq<char> {
    if has_thai {
        inter_face(inter_b64) + thai_face(thai_b64)
    } else {
        inter_face(inter_b64)
    }
}

/// Renders the `@font-face` rules declaring the embedded Inter face and, when
/// `has_thai`, the Noto Sans Thai fallback face. `inter_b64` and `thai_b64`
/// are the base64 payloads of the two font files.
pub fn font_style_block(has_thai: bool, inter_b64: &str, thai_b64: &str) -> (s: String)
    ensures
        s@ == font_style_text(has_thai, inter_b64@, thai_b64@),
{
    let mut s = String::new();
    push_str(&mut s, "@font-face { font-family: 'Inter'; src: url(data:font/woff2;base64,");
    push_str(&mut s, inter_b64);
    push_str(&mut s, ") format('woff2'); font-weight: 400; font-style: normal; }\n");
    if has_thai {
        push_str(&mut s, "@font-face { font-family: 'Noto Sans Thai'; src: url(data:font/truetype;base64,");
        push_str(&mut s, thai_b64);
        push_str(&mut s, ") format('truetype'); font-weight: 400; font-style: normal; }\n");
    }
    proof {
        if has_thai {
            assert(s@ =~= inter_face(inter_b64@) + thai_face(thai_b64@));
        } else {
            assert(s@ =~= inter_face(inter_b64@));
        }
    }
    s
}

/// Whether a metric's label or value holds a non-ASCII character.
pub open spec fn metric_non_ascii(m: MetricView) -> bool {
    has_non_ascii_spec(m.label) || has_non_ascii_spec(m.value)
}

/// Whether the specification's text needs the embedded Thai font: a
/// non-ASCII character in the title, subtitle, a metric label or value, or a
/// section title.
pub open spec fn text_needs_thai(s: LayoutSpecView) -> bool {
    ||| has_non_ascii_spec(s.title)
    ||| (s.subtitle matches Some(t) && has_non_ascii_spec(t))
    ||| (exists|i: int| 0 <= i < s.metrics.len() && metric_non_ascii(#[trigger] s.metrics[i]))
    ||| (exists|i: int| 0 <= i < s.sections.len() && has_non_ascii_spec(#[trigger] s.sections[i].title))
}

/// Whether `spec`'s text needs the embedded Thai font.
pub fn needs_thai(spec: &InfographicLayoutSpec) -> (b: bool)
    ensures
        b == text_needs_thai(spec@),
{
    let ghost sv = spec@;
    if has_non_ascii(spec.title.as_str()) {
        return true;
    }
    if let Some(sub) = &spec.subtitle {
        if has_non_ascii(sub.as_str()) {
            return true;
        }
    }
    let mut i: usize = 0;
    while i < spec.metrics.len()
        invariant
            i <= spec.metrics.len(),
            sv == spec@,
            forall|k: int| 0 <= k < i ==> !metric_non_ascii(#[trigger] sv.metrics[k]),
        decreases spec.metrics.len() - i,
    {
        let m = &spec.metrics[i];
        assert(sv.metrics[i as int] == m@);
        let in_label = has_non_ascii(m.label.as_str());
        let in_value = has_non_ascii(m.value.as_str());
        assert(in_label == has_non_ascii_spec(sv.metrics[i as int].label));
        assert(in_value == has_non_ascii_spec(sv.metrics[i as int].value));
        assert((in_label || in_value) == metric_non_ascii(sv.metrics[i as int]));
        if in_label || in_value {
            assert(metric_non_ascii(sv.metrics[i as int]));
            return true;
        }
        i = i + 1;
    }
    let mut j: usize = 0;
    while j < spec.sections.len()
        invariant
            j <= spec.sections.len(),
            sv == spec@,
            forall|k: int| 0 <= k < j ==> !has_non_ascii_spec(#[trigger] sv.sections[k].title),
        decreases spec.sections.len() - j,
    {
        let s = &spec.sections[j];
        assert(sv.sections[j as int] == s@);
        if has_non_ascii(s.title.as_str()) {
            assert(has_non_ascii_spec(sv.sections[j as int].title));
            return true;
        }
        j = j + 1;
    }
    false
}

} // verus!
