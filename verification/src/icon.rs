//! Icon set: named monochrome glyphs (24x24 view box, stroked) rendered as
//! inline SVG groups. The glyph table is built from `(name, path data)`
//! pairs; a compact path such as `M.. Z M.. Z` is split into one `<path>`
//! per `M` command so that multi-shape glyphs render as several paths.

use crate::strutil::{lowercase, push_char, push_str, to_lowercase};
use crate::data_binding::string_views;
use vstd::prelude::*;
use vstd::string::*;

verus! {

/// The pieces finished so far and the piece being read, after reading `d`.
pub open spec fn split_state(d: Seq<char>) -> (Seq<Seq<char>>, Seq<char>)
    decreases d.len(),
{
    if d.len() == 0 {
        (seq![], seq![])
    } else {
        let (out, cur) = split_state(d.drop_last());
        let c = d.last();
        if c == 'M' && cur.len() > 0 {
            (out.push(cur), seq![c])
        } else {
            (out, cur.push(c))
        }
    }
}

/// Path data split before every `M` that does not start the text: the
/// pieces, in order, each non-empty.
pub open spec fn path_pieces(d: Seq<char>) -> Seq<Seq<char>> {
    let (out, cur) = split_state(d);
    if cur.len() > 0 {
        out.push(cur)
    } else {
        out
    }
}

/// The concatenation of a list of texts.
pub open spec fn concat(ps: Seq<Seq<char>>) -> Seq<char>
    decreases ps.len(),
{
    if ps.len() == 0 {
        seq![]
    } else {
        concat(ps.drop_last()) + ps.last()
    }
}

/// A well-formed list of pieces: none is empty, every piece after the first
/// starts with `M`, and no piece holds an `M` past its first character.
pub open spec fn pieces_wf(ps: Seq<Seq<char>>) -> bool {
    &&& forall|i: int| 0 <= i < ps.len() ==> #[trigger] ps[i].len() > 0
    &&& forall|i: int| 1 <= i < ps.len() ==> #[trigger] ps[i][0] == 'M'
    &&& forall|i: int, j: int| 0 <= i < ps.len() && 1 <= j < ps[i].len() ==> #[trigger] ps[i][j] != 'M'
}

proof fn lemma_split_state(d: Seq<char>)
    ensures
        concat(split_state(d).0) + split_state(d).1 == d,
        pieces_wf(split_state(d).0),
        split_state(d).0.len() > 0 ==> split_state(d).1.len() > 0,
        split_state(d).1.len() > 0 && split_state(d).0.len() > 0 ==> split_state(d).1[0] == 'M',
        forall|j: int| 1 <= j < split_state(d).1.len() ==> #[trigger] split_state(d).1[j] != 'M',
    decreases d.len(),
{
    if d.len() > 0 {
        lemma_split_state(d.drop_last());
        let (out, cur) = split_state(d.drop_last());
        let c = d.last();
        if c == 'M' && cur.len() > 0 {
            assert(out.push(cur).drop_last() == out);
            assert(concat(out.push(cur)) == concat(out) + cur);
            assert(concat(out.push(cur)) + seq![c] == d.drop_last().push(c));
        } else {
            assert(concat(out) + cur.push(c) == (concat(out) + cur).push(c));
        }
        assert(d.drop_last().push(d.last()) == d);
    }
}

/// Splitting path data loses and adds nothing: the pieces concatenate back to
/// the input, none is empty, each later piece begins with `M`, and no piece
/// holds an `M` past its first character.
pub proof fn lemma_path_pieces(d: Seq<char>)
    ensures
        concat(path_pieces(d)) == d,
        pieces_wf(path_pieces(d)),
{
    lemma_split_state(d);
    let (out, cur) = split_state(d);
    if cur.len() > 0 {
        assert(out.push(cur).drop_last() == out);
        let ps = out.push(cur);
        assert forall|i: int| 0 <= i < ps.len() implies #[trigger] ps[i].len() > 0 by {
            if i < out.len() {
                assert(ps[i] == out[i]);
            }
        }
        assert forall|i: int| 1 <= i < ps.len() implies #[trigger] ps[i][0] == 'M' by {
            if i < out.len() {
                assert(ps[i] == out[i]);
            }
        }
        assert forall|i: int, j: int| 0 <= i < ps.len() && 1 <= j < ps[i].len() implies #[trigger] ps[i][j] != 'M' by {
            if i < out.len() {
                assert(ps[i] == out[i]);
            }
        }
    } else {
        assert(cur == Seq::<char>::empty());
        assert(concat(out) + cur == concat(out));
    }
}

/// Splits compact path data (`M.. Z M.. Z`) into one piece per `M` command.
pub fn split_commands(d: &str) -> (r: Vec<String>)
    ensures
        string_views(r@) == path_pieces(d@),
{
    let mut out: Vec<String> = Vec::new();
    let mut cur = String::new();
    for c in it: d.chars()
        invariant
            it.seq() == d@,
            (string_views(out@), cur@) == split_state(d@.take(it.index() as int)),
    {
        let ghost i = it.index() as int;
        assert(d@.take(i + 1).drop_last() == d@.take(i));
        if c == 'M' && !cur.as_str().is_empty() {
            let piece = cur;
            out.push(piece);
            cur = String::new();
            assert(string_views(out@) == string_views(out@.drop_last()).push(piece@));
        }
        push_char(&mut cur, c);
    }
    assert(d@.take(d@.len() as int) == d@);
    if !cur.as_str().is_empty() {
        let piece = cur;
        out.push(piece);
        assert(string_views(out@) == string_views(out@.drop_last()).push(piece@));
    }
    out
}

/// One glyph of the table: its name and its path pieces.
pub open spec fn entry_view(e: (String, Vec<String>)) -> (Seq<char>, Seq<Seq<char>>) {
    (e.0@, string_views(e.1@))
}

/// The map from names to path pieces that a list of entries describes, a
/// later entry replacing an earlier one of the same name.
pub open spec fn entry_map(es: Seq<(Seq<char>, Seq<Seq<char>>)>) -> Map<Seq<char>, Seq<Seq<char>>>
    decreases es.len(),
{
    if es.len() == 0 {
        Map::empty()
    } else {
        entry_map(es.drop_last()).insert(es.last().0, es.last().1)
    }
}

/// The glyph table described by `(name, path data)` pairs read in order, a
/// later pair replacing an earlier one of the same name.
pub open spec fn icon_table(pairs: Seq<(Seq<char>, Seq<char>)>) -> Map<Seq<char>, Seq<Seq<char>>>
    decreases pairs.len(),
{
    if pairs.len() == 0 {
        Map::empty()
    } else {
        icon_table(pairs.drop_last()).insert(pairs.last().0, path_pieces(pairs.last().1))
    }
}

/// No name occurs twice among the entries.
pub open spec fn names_unique(es: Seq<(Seq<char>, Seq<Seq<char>>)>) -> bool {
    forall|i: int, j: int| 0 <= i < j < es.len() ==> #[trigger] es[i].0 != #[trigger] es[j].0
}

proof fn lemma_entry_map(es: Seq<(Seq<char>, Seq<Seq<char>>)>)
    requires
        names_unique(es),
    ensures
        entry_map(es).dom().finite(),
        entry_map(es).dom().len() == es.len(),
        forall|i: int| 0 <= i < es.len() ==> #[trigger] entry_map(es).dom().contains(es[i].0)
            && entry_map(es)[es[i].0] == es[i].1,
        forall|k: Seq<char>| #[trigger] entry_map(es).dom().contains(k) ==> exists|i: int|
            0 <= i < es.len() && es[i].0 == k,
    decreases es.len(),
{
    if es.len() > 0 {
        let p = es.drop_last();
        assert(names_unique(p));
        lemma_entry_map(p);
        let k = es.last().0;
        assert(!entry_map(p).dom().contains(k)) by {
            if entry_map(p).dom().contains(k) {
                let i = choose|i: int| 0 <= i < p.len() && p[i].0 == k;
                assert(es[i].0 == es[es.len() - 1].0);
            }
        }
        assert forall|i: int| 0 <= i < es.len() implies #[trigger] entry_map(es).dom().contains(es[i].0)
            && entry_map(es)[es[i].0] == es[i].1 by {
            if i < es.len() - 1 {
                assert(es[i] == p[i]);
                assert(es[i].0 != k);
            }
        }
        assert forall|k2: Seq<char>| #[trigger] entry_map(es).dom().contains(k2) implies exists|i: int|
            0 <= i < es.len() && es[i].0 == k2 by {
            if k2 != k {
                let i = choose|i: int| 0 <= i < p.len() && p[i].0 == k2;
                assert(es[i] == p[i]);
            } else {
                assert(es[es.len() - 1].0 == k2);
            }
        }
    }
}

proof fn lemma_entry_map_update(es: Seq<(Seq<char>, Seq<Seq<char>>)>, j: int, v: Seq<Seq<char>>)
    requires
        names_unique(es),
        0 <= j < es.len(),
    ensures
        entry_map(es.update(j, (es[j].0, v))) == entry_map(es).insert(es[j].0, v),
    decreases es.len(),
{
    let k = es[j].0;
    let u = es.update(j, (k, v));
    if j == es.len() - 1 {
        assert(u.drop_last() == es.drop_last());
    } else {
        let p = es.drop_last();
        assert(names_unique(p));
        assert(u.drop_last() == p.update(j, (k, v)));
        lemma_entry_map_update(p, j, v);
        assert(es.last().0 != k);
        assert(entry_map(u) =~= entry_map(es).insert(k, v));
    }
}

/// Renders named monochrome glyphs as inline SVG groups.
pub struct IconRenderer {
    entries: Vec<(String, Vec<String>)>,
}

impl IconRenderer {
    /// The entries, each by its view.
    pub closed spec fn entries_view(&self) -> Seq<(Seq<char>, Seq<Seq<char>>)> {
        self.entries@.map_values(|e: (String, Vec<String>)| entry_view(e))
    }

    /// The glyph table: name to path pieces.
    pub closed spec fn table(&self) -> Map<Seq<char>, Seq<Seq<char>>> {
        entry_map(self.entries_view())
    }

    /// Every name occurs once.
    pub closed spec fn wf(&self) -> bool {
        names_unique(self.entries_view())
    }

    /// Builds the glyph table from `(name, path data)` pairs, splitting each
    /// path at its `M` commands; a later pair replaces an earlier one of the
    /// same name.
    pub fn from_pairs(pairs: Vec<(String, String)>) -> (r: IconRenderer)
        ensures
            r.wf(),
            r.table() == icon_table(pairs@.map_values(|p: (String, String)| (p.0@, p.1@))),
    {
        let ghost pv = pairs@.map_values(|p: (String, String)| (p.0@, p.1@));
        let mut r = IconRenderer { entries: Vec::new() };
        let mut i: usize = 0;
        assert(r.entries_view() =~= Seq::<(Seq<char>, Seq<Seq<char>>)>::empty());
        while i < pairs.len()
            invariant
                i <= pairs.len(),
                pv == pairs@.map_values(|p: (String, String)| (p.0@, p.1@)),
                r.wf(),
                r.table() == icon_table(pv.take(i as int)),
            decreases pairs.len() - i,
        {
            let name = pairs[i].0.clone();
            let pieces = split_commands(pairs[i].1.as_str());
            assert(pv.take(i + 1).drop_last() == pv.take(i as int));
            assert(pv.take(i + 1).last() == (name@, pairs@[i as int].1@));
            r.insert(name, pieces);
            i = i + 1;
        }
        assert(pv.take(pairs.len() as int) == pv);
        r
    }

    /// Puts `pieces` under `name`, replacing what was there.
    fn insert(&mut self, name: String, pieces: Vec<String>)
        requires
            old(self).wf(),
        ensures
            final(self).wf(),
            final(self).table() == old(self).table().insert(name@, string_views(pieces@)),
    {
        let ghost ev = self.entries_view();
        let mut j: usize = 0;
        while j < self.entries.len()
            invariant
                j <= self.entries.len(),
                ev == self.entries_view(),
                ev == old(self).entries_view(),
                names_unique(ev),
                forall|k: int| 0 <= k < j ==> #[trigger] ev[k].0 != name@,
            decreases self.entries.len() - j,
        {
            if self.entries[j].0 == name {
                let ghost v = string_views(pieces@);
                assert(ev[j as int].0 == name@);
                proof {
                    lemma_entry_map_update(ev, j as int, v);
                }
                self.entries.set(j, (name, pieces));
                assert(self.entries_view() =~= ev.update(j as int, (ev[j as int].0, v)));
                assert(names_unique(self.entries_view())) by {
                    let u = self.entries_view();
                    assert forall|a: int, b: int| 0 <= a < b < u.len() implies #[trigger] u[a].0 != #[trigger] u[b].0 by {
                        assert(u[a].0 == ev[a].0);
                        assert(u[b].0 == ev[b].0);
                    }
                }
                return;
            }
            j = j + 1;
        }
        let ghost v = string_views(pieces@);
        self.entries.push((name, pieces));
        assert(self.entries_view() =~= ev.push((name@, v)));
        assert(self.entries_view().drop_last() =~= ev);
    }

    /// The index of the entry named `key`, if any.
    fn find(&self, key: &String) -> (r: Option<usize>)
        requires
            self.wf(),
        ensures
            r.is_some() <==> self.table().dom().contains(key@),
            r.is_some() ==> r.unwrap() < self.entries@.len() && self.entries@[r.unwrap() as int].0@ == key@,
    {
        proof {
            lemma_entry_map(self.entries_view());
        }
        let ghost ev = self.entries_view();
        let mut j: usize = 0;
        while j < self.entries.len()
            invariant
                j <= self.entries.len(),
                ev == self.entries_view(),
                names_unique(ev),
                forall|k: int| 0 <= k < j ==> #[trigger] ev[k].0 != key@,
            decreases self.entries.len() - j,
        {
            if self.entries[j].0 == *key {
                assert(ev[j as int].0 == key@);
                proof {
                    lemma_entry_map(ev);
                }
                assert(self.table().dom().contains(ev[j as int].0));
                return Some(j);
            }
            j = j + 1;
        }
        proof {
            if self.table().dom().contains(key@) {
                let k = choose|k: int| 0 <= k < ev.len() && ev[k].0 == key@;
            }
        }
        None
    }

    /// Path pieces for `name`, looked up by its lower-case form; empty when
    /// the table has no such glyph.
    pub fn paths(&self, name: &str) -> (r: Vec<String>)
        requires
            self.wf(),
        ensures
            string_views(r@) == (if self.table().dom().contains(lowercase(name@)) {
                self.table()[lowercase(name@)]
            } else {
                seq![]
            }),
    {
        let key = to_lowercase(name);
        proof {
            lemma_entry_map(self.entries_view());
        }
        match self.find(&key) {
            Some(j) => {
                assert(self.entries_view()[j as int] == entry_view(self.entries@[j as int]));
                assert(entry_map(self.entries_view()).dom().contains(self.entries_view()[j as int].0));
                clone_strings(&self.entries[j].1)
            },
            None => {
                let r: Vec<String> = Vec::new();
                assert(string_views(r@) =~= Seq::<Seq<char>>::empty());
                r
            },
        }
    }

    /// Whether the table has a glyph for the lower-case form of `name`.
    pub fn has(&self, name: &str) -> (r: bool)
        requires
            self.wf(),
        ensures
            r == self.table().dom().contains(lowercase(name@)),
    {
        let key = to_lowercase(name);
        self.find(&key).is_some()
    }

    /// Number of glyphs in the table.
    pub fn count(&self) -> (r: usize)
        requires
            self.wf(),
        ensures
            r == self.table().dom().len(),
    {
        proof {
            lemma_entry_map(self.entries_view());
        }
        self.entries.len()
    }

    /// The glyph for `name` as an SVG group stroked with `color`; a group with
    /// no paths when the table has no such glyph.
    pub fn render(&self, name: &str, color: &str) -> (r: String)
        requires
            self.wf(),
        ensures
            r@ == icon_group(color@, if self.table().dom().contains(lowercase(name@)) {
                self.table()[lowercase(name@)]
            } else {
                seq![]
            }),
    {
        let paths = self.paths(name);
        let mut out = String::new();
        push_str(&mut out, "<g fill=\"none\" stroke=\"");
        push_str(&mut out, color);
        push_str(&mut out, "\" stroke-width=\"2\" stroke-linecap=\"round\" stroke-linejoin=\"round\" transform=\"translate(-4,-4)\">");
        let ghost head = out@;
        let mut i: usize = 0;
        while i < paths.len()
            invariant
                i <= paths.len(),
                out@ == head + path_elems(string_views(paths@).take(i as int)),
            decreases paths.len() - i,
        {
            assert(string_views(paths@).take(i + 1).drop_last() == string_views(paths@).take(i as int));
            push_str(&mut out, "<path d=\"");
            push_str(&mut out, paths[i].as_str());
            push_str(&mut out, "\" />");
            i = i + 1;
        }
        assert(string_views(paths@).take(paths.len() as int) == string_views(paths@));
        push_str(&mut out, "</g>");
        out
    }
}

/// A copy of a list of strings.
fn clone_strings(v: &Vec<String>) -> (r: Vec<String>)
    ensures
        string_views(r@) == string_views(v@),
{
    let mut r: Vec<String> = Vec::new();
    let mut i: usize = 0;
    while i < v.len()
        invariant
            i <= v.len(),
            string_views(r@) == string_views(v@).take(i as int),
        decreases v.len() - i,
    {
        let s = v[i].clone();
        r.push(s);
        assert(string_views(r@) == string_views(v@).take(i as int).push(v@[i as int]@));
        assert(string_views(v@).take(i + 1) == string_views(v@).take(i as int).push(v@[i as int]@));
        i = i + 1;
    }
    assert(string_views(v@).take(v.len() as int) == string_views(v@));
    r
}

/// `<path>` elements, one per piece.
pub open spec fn path_elems(ps: Seq<Seq<char>>) -> Seq<char>
    decreases ps.len(),
{
    if ps.len() == 0 {
        seq![]
    } else {
        path_elems(ps.drop_last()) + "<path d=\""@ + ps.last() + "\" />"@
    }
}

/// The SVG group for a glyph's pieces stroked with `color`.
pub open spec fn icon_group(color: Seq<char>, ps: Seq<Seq<char>>) -> Seq<char> {
    "<g fill=\"none\" stroke=\""@ + color
        + "\" stroke-width=\"2\" stroke-linecap=\"round\" stroke-linejoin=\"round\" transform=\"translate(-4,-4)\">"@
        + path_elems(ps) + "</g>"@
}

} // verus!
