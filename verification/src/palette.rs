//! Palette registry: palette entries (named color roles per theme) in corpus
//! order, and the color roles a theme resolves to, the corpus value when an
//! entry exists and the theme's built-in colors otherwise.

use crate::router::{theme_colors, PaletteTheme};
use vstd::prelude::*;

verus! {

/// The five color roles of a palette (hex color strings).
pub struct PaletteColors {
    pub bg: String,
    pub card_bg: String,
    pub accent1: String,
    pub accent2: String,
    pub text: String,
}

/// Named color roles of a corpus palette entry.
pub struct PaletteRoles {
    pub bg: String,
    pub card_bg: String,
    pub accent1: String,
    pub accent2: String,
    pub text: String,
}

/// The five roles as character sequences (bg, card bg, accent 1, accent 2,
/// text).
pub type Roles = (Seq<char>, Seq<char>, Seq<char>, Seq<char>, Seq<char>);

/// The roles of a color set, by their characters.
pub open spec fn roles_of(r: &PaletteRoles) -> Roles {
    (r.bg@, r.card_bg@, r.accent1@, r.accent2@, r.text@)
}

/// The roles of a resolved color set, by their characters.
pub open spec fn colors_of(c: &PaletteColors) -> Roles {
    (c.bg@, c.card_bg@, c.accent1@, c.accent2@, c.text@)
}

/// One palette entry of the corpus (the fields the registry reads, and its
/// descriptive metadata).
pub struct PaletteEntry {
    pub id: String,
    pub palette_type: PaletteTheme,
    pub description: Option<String>,
    pub roles: PaletteRoles,
    pub color_blind_safe: Option<bool>,
    pub dark_mode: Option<bool>,
}

/// Registry over palette entries, in corpus order.
pub struct PaletteRegistry {
    entries: Vec<PaletteEntry>,
}

/// The index of the first entry of `theme`.
pub open spec fn first_of(es: Seq<PaletteEntry>, theme: PaletteTheme) -> Option<int>
    decreases es.len(),
{
    if es.len() == 0 {
        None
    } else if es[0].palette_type == theme {
        Some(0)
    } else {
        match first_of(es.drop_first(), theme) {
            Some(i) => Some(i + 1),
            None => None,
        }
    }
}

/// The color roles `theme` resolves to over entries `es`: those of its first
/// entry, or the theme's built-in colors when it has none.
pub open spec fn resolved_colors(es: Seq<PaletteEntry>, theme: PaletteTheme) -> Roles {
    match first_of(es, theme) {
        Some(i) => roles_of(&es[i].roles),
        None => theme_colors(theme),
    }
}

fn copy(s: &String) -> (r: String)
    ensures
        r@ == s@,
{
    s.clone()
}

impl PaletteRegistry {
    /// The entries, in corpus order.
    pub closed spec fn spec_entries(&self) -> Seq<PaletteEntry> {
        self.entries@
    }

    /// A registry over these entries, in the given order.
    pub fn from_entries(entries: Vec<PaletteEntry>) -> (r: Self)
        ensures
            r.spec_entries() == entries@,
    {
        PaletteRegistry { entries }
    }

    /// Number of loaded palette entries.
    pub fn len(&self) -> (r: usize)
        ensures
            r == self.spec_entries().len(),
    {
        self.entries.len()
    }

    /// Whether no entry is loaded.
    pub fn is_empty(&self) -> (r: bool)
        ensures
            r == (self.spec_entries().len() == 0),
    {
        self.entries.len() == 0
    }

    /// All entries, in corpus order.
    pub fn entries(&self) -> (r: &[PaletteEntry])
        ensures
            r@ == self.spec_entries(),
    {
        self.entries.as_slice()
    }

    /// The first entry of `theme`.
    pub fn get(&self, theme: PaletteTheme) -> (r: Option<&PaletteEntry>)
        ensures
            match first_of(self.spec_entries(), theme) {
                Some(i) => r == Some(&self.spec_entries()[i]),
                None => r is None,
            },
    {
        let ghost es = self.entries@;
        let mut i: usize = 0;
        assert(es.skip(0) == es);
        while i < self.entries.len()
            invariant
                i <= self.entries.len(),
                es == self.entries@,
                first_of(es, theme) == match first_of(es.skip(i as int), theme) {
                    Some(j) => Some(j + i),
                    None => None,
                },
            decreases self.entries.len() - i,
        {
            assert(es.skip(i as int)[0] == es[i as int]);
            if self.entries[i].palette_type == theme {
                return Some(&self.entries[i]);
            }
            assert(es.skip(i as int).drop_first() =~= es.skip(i + 1));
            i = i + 1;
        }
        assert(es.skip(i as int).len() == 0);
        None
    }

    /// The five color roles of `theme`: its first entry's roles, or the
    /// theme's built-in colors when the registry has no entry for it.
    pub fn colors(&self, theme: PaletteTheme) -> (r: PaletteColors)
        ensures
            colors_of(&r) == resolved_colors(self.spec_entries(), theme),
    {
        match self.get(theme) {
            Some(e) => PaletteColors {
                bg: copy(&e.roles.bg),
                card_bg: copy(&e.roles.card_bg),
                accent1: copy(&e.roles.accent1),
                accent2: copy(&e.roles.accent2),
                text: copy(&e.roles.text),
            },
            None => {
                let (bg, card_bg, a1, a2, text) = theme.colors();
                PaletteColors {
                    bg: String::from_str(bg),
                    card_bg: String::from_str(card_bg),
                    accent1: String::from_str(a1),
                    accent2: String::from_str(a2),
                    text: String::from_str(text),
                }
            },
        }
    }
}

} // verus!
