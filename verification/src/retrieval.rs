//! Retrieval features: the lower-cased word tokens of a prompt or of a layout
//! candidate (its tags, layout type and description), the closed vocabulary
//! of a candidate corpus, term counts over it, and the tag overlap of the
//! lexical baseline. Relevance scores built on these are computed by the
//! caller.

use crate::http::text_eq;
use crate::numtext::ascii_lower;
use crate::router::LayoutType;
use crate::data_binding::string_views;
use crate::strutil::{push_char, str_chars, string_of_chars};
use vstd::prelude::*;

verus! {

/// What std's `char::is_alphanumeric` decides (Unicode `Alphabetic` or
/// `Numeric`).
pub uninterp spec fn alphanumeric(c: char) -> bool;

/// An ASCII letter or digit.
pub open spec fn ascii_alnum(c: char) -> bool {
    ('0' <= c && c <= '9') || ('a' <= c && c <= 'z') || ('A' <= c && c <= 'Z')
}

/// Calls std `char::is_alphanumeric`. The result is named `alphanumeric`;
/// for an ASCII character the contract also states that it is a letter or
/// a digit, which is how std documents the ASCII range of the two Unicode
/// properties. Nothing is claimed beyond ASCII.
#[verifier::external_body]
fn is_alnum(c: char) -> (r: bool)
    ensures
        r == alphanumeric(c),
        (c as u32) < 128 ==> (r == ascii_alnum(c)),
{
    c.is_alphanumeric()
}

/// `c` with an ASCII upper-case letter lowered.
fn lower_ascii(c: char) -> (r: char)
    ensures
        r == ascii_lower(c),
{
    if 'A' <= c && c <= 'Z' {
        ((c as u8) + 32) as char
    } else {
        c
    }
}

/// English function words that carry no retrieval signal.
pub open spec fn stop_word(w: Seq<char>) -> bool {
    ||| w == "a"@ ||| w == "an"@ ||| w == "the"@ ||| w == "and"@ ||| w == "or"@ ||| w == "of"@
    ||| w == "to"@ ||| w == "in"@ ||| w == "on"@ ||| w == "for"@ ||| w == "with"@ ||| w == "by"@
    ||| w == "at"@ ||| w == "from"@ ||| w == "as"@ ||| w == "into"@ ||| w == "via"@ ||| w == "per"@
    ||| w == "each"@ ||| w == "is"@ ||| w == "are"@ ||| w == "be"@ ||| w == "been"@ ||| w == "it"@
    ||| w == "its"@ ||| w == "this"@ ||| w == "that"@ ||| w == "these"@ ||| w == "those"@
    ||| w == "their"@ ||| w == "they"@
}

fn is_stop_word(w: &str) -> (r: bool)
    ensures
        r == stop_word(w@),
{
    text_eq(w, "a") || text_eq(w, "an") || text_eq(w, "the") || text_eq(w, "and") || text_eq(w, "or")
        || text_eq(w, "of") || text_eq(w, "to") || text_eq(w, "in") || text_eq(w, "on") || text_eq(w, "for")
        || text_eq(w, "with") || text_eq(w, "by") || text_eq(w, "at") || text_eq(w, "from") || text_eq(w, "as")
        || text_eq(w, "into") || text_eq(w, "via") || text_eq(w, "per") || text_eq(w, "each") || text_eq(w, "is")
        || text_eq(w, "are") || text_eq(w, "be") || text_eq(w, "been") || text_eq(w, "it") || text_eq(w, "its")
        || text_eq(w, "this") || text_eq(w, "that") || text_eq(w, "these") || text_eq(w, "those")
        || text_eq(w, "their") || text_eq(w, "they")
}

/// Tokens finished so far and the token being read, after reading `s`.
pub open spec fn token_state(s: Seq<char>) -> (Seq<Seq<char>>, Seq<char>)
    decreases s.len(),
{
    if s.len() == 0 {
        (seq![], seq![])
    } else {
        let (out, cur) = token_state(s.drop_last());
        let c = s.last();
        if alphanumeric(c) {
            (out, cur.push(ascii_lower(c)))
        } else if cur.len() > 0 {
            if stop_word(cur) {
                (out, seq![])
            } else {
                (out.push(cur), seq![])
            }
        } else {
            (out, cur)
        }
    }
}

/// The maximal runs of alphanumeric characters of `s`, ASCII letters
/// lowered, without the stop words, in order.
pub open spec fn tokens(s: Seq<char>) -> Seq<Seq<char>> {
    let (out, cur) = token_state(s);
    if cur.len() > 0 && !stop_word(cur) {
        out.push(cur)
    } else {
        out
    }
}

/// Lower-cased alphanumeric word tokens of `text`, without stop words.
pub fn word_tokens(text: &str) -> (r: Vec<String>)
    ensures
        string_views(r@) == tokens(text@),
{
    let mut out: Vec<String> = Vec::new();
    let mut cur = String::new();
    for c in it: text.chars()
        invariant
            it.seq() == text@,
            (string_views(out@), cur@) == token_state(text@.take(it.index() as int)),
    {
        let ghost i = it.index() as int;
        assert(text@.take(i + 1).drop_last() == text@.take(i));
        if is_alnum(c) {
            push_char(&mut cur, lower_ascii(c));
        } else if !cur.as_str().is_empty() {
            if is_stop_word(cur.as_str()) {
                cur = String::new();
            } else {
                let piece = cur;
                out.push(piece);
                cur = String::new();
                assert(string_views(out@) == string_views(out@.drop_last()).push(piece@));
            }
        }
    }
    assert(text@.take(text@.len() as int) == text@);
    if !cur.as_str().is_empty() && !is_stop_word(cur.as_str()) {
        let piece = cur;
        out.push(piece);
        assert(string_views(out@) == string_views(out@.drop_last()).push(piece@));
    }
    out
}

/// The retrieval features of a query: its word tokens.
pub fn query_features(text: &str) -> (r: Vec<String>)
    ensures
        string_views(r@) == tokens(text@),
{
    word_tokens(text)
}

/// The lower-cased name of a layout type.
pub open spec fn layout_type_name(t: LayoutType) -> Seq<char> {
    match t {
        LayoutType::ProcessTimeline => "processtimeline"@,
        LayoutType::StatisticalDashboard => "statisticaldashboard"@,
        LayoutType::ComparisonGrid => "comparisongrid"@,
        LayoutType::MindmapHierarchy => "mindmaphierarchy"@,
    }
}

/// The tokens of each text, in turn.
pub open spec fn all_tokens(ts: Seq<Seq<char>>) -> Seq<Seq<char>>
    decreases ts.len(),
{
    if ts.len() == 0 {
        seq![]
    } else {
        all_tokens(ts.drop_last()) + tokens(ts.last())
    }
}

/// The features of a layout candidate: the tokens of its tags, its layout
/// type's name, then the tokens of its description.
pub open spec fn candidate_feature_seq(tags: Seq<Seq<char>>, t: LayoutType, description: Option<Seq<char>>) -> Seq<Seq<char>> {
    all_tokens(tags) + seq![layout_type_name(t)] + match description {
        Some(d) => tokens(d),
        None => seq![],
    }
}

fn append_all(out: &mut Vec<String>, more: Vec<String>)
    ensures
        string_views(final(out)@) == string_views(old(out)@) + string_views(more@),
{
    let ghost start = string_views(out@);
    let mut i: usize = 0;
    while i < more.len()
        invariant
            i <= more.len(),
            string_views(out@) == start + string_views(more@).take(i as int),
        decreases more.len() - i,
    {
        let ghost o0 = string_views(out@);
        let s = more[i].clone();
        assert(s@ == more@[i as int]@);
        out.push(s);
        assert(string_views(out@) =~= o0.push(s@));
        assert(string_views(more@).take(i + 1) =~= string_views(more@).take(i as int).push(more@[i as int]@));
        assert(string_views(out@) =~= start + string_views(more@).take(i + 1));
        i = i + 1;
    }
    assert(string_views(more@).take(more.len() as int) == string_views(more@));
}

/// The retrieval features of a layout candidate with these tags, layout
/// type and description.
pub fn candidate_features(tags: &Vec<String>, layout_type: LayoutType, description: Option<&str>) -> (r: Vec<String>)
    ensures
        string_views(r@) == candidate_feature_seq(string_views(tags@), layout_type, match description {
            Some(d) => Some(d@),
            None => None,
        }),
{
    let ghost tv = string_views(tags@);
    let mut feats: Vec<String> = Vec::new();
    let mut i: usize = 0;
    while i < tags.len()
        invariant
            i <= tags.len(),
            tv == string_views(tags@),
            string_views(feats@) == all_tokens(tv.take(i as int)),
        decreases tags.len() - i,
    {
        assert(tv.take(i + 1).drop_last() == tv.take(i as int));
        assert(tv.take(i + 1).last() == tags@[i as int]@);
        let toks = word_tokens(tags[i].as_str());
        append_all(&mut feats, toks);
        i = i + 1;
    }
    assert(tv.take(tags.len() as int) == tv);
    let name = match layout_type {
        LayoutType::ProcessTimeline => "processtimeline",
        LayoutType::StatisticalDashboard => "statisticaldashboard",
        LayoutType::ComparisonGrid => "comparisongrid",
        LayoutType::MindmapHierarchy => "mindmaphierarchy",
    };
    let ghost before = string_views(feats@);
    let n = String::from_str(name);
    feats.push(n);
    assert(string_views(feats@) =~= before.push(layout_type_name(layout_type)));
    if let Some(d) = description {
        append_all(&mut feats, word_tokens(d));
    }
    proof {
        let dv = match description {
            Some(d) => tokens(d@),
            None => Seq::<Seq<char>>::empty(),
        };
        assert(string_views(feats@) =~= all_tokens(tv) + seq![layout_type_name(layout_type)] + dv);
    }
    feats
}

/// Whether `w` is one of `v`.
fn holds(v: &Vec<String>, w: &String) -> (r: bool)
    ensures
        r == string_views(v@).contains(w@),
{
    let mut i: usize = 0;
    while i < v.len()
        invariant
            i <= v.len(),
            forall|k: int| 0 <= k < i ==> string_views(v@)[k] != w@,
        decreases v.len() - i,
    {
        if text_eq(v[i].as_str(), w.as_str()) {
            assert(string_views(v@)[i as int] == w@);
            return true;
        }
        i = i + 1;
    }
    false
}

/// The texts of `s` in order of first occurrence, each once.
pub open spec fn distinct(s: Seq<Seq<char>>) -> Seq<Seq<char>>
    decreases s.len(),
{
    if s.len() == 0 {
        seq![]
    } else {
        let d = distinct(s.drop_last());
        if d.contains(s.last()) {
            d
        } else {
            d.push(s.last())
        }
    }
}

/// The closed vocabulary of a corpus: every feature of every candidate, in
/// order of first occurrence, each once.
pub fn vocabulary(features: &Vec<Vec<String>>) -> (r: Vec<String>)
    ensures
        string_views(r@) == distinct(all_features(features@)),
{
    let mut vocab: Vec<String> = Vec::new();
    let mut i: usize = 0;
    while i < features.len()
        invariant
            i <= features.len(),
            string_views(vocab@) == distinct(all_features(features@.take(i as int))),
        decreases features.len() - i,
    {
        assert(features@.take(i + 1).drop_last() == features@.take(i as int));
        let fs = &features[i];
        let ghost base = all_features(features@.take(i as int));
        let mut j: usize = 0;
        while j < fs.len()
            invariant
                j <= fs.len(),
                fs == features@[i as int],
                string_views(vocab@) == distinct(base + string_views(fs@).take(j as int)),
            decreases fs.len() - j,
        {
            let ghost pre = base + string_views(fs@).take(j as int);
            assert((base + string_views(fs@).take(j + 1)).drop_last() == pre);
            assert((base + string_views(fs@).take(j + 1)).last() == fs@[j as int]@);
            if !holds(&vocab, &fs[j]) {
                let s = fs[j].clone();
                vocab.push(s);
                assert(string_views(vocab@) =~= distinct(pre).push(fs@[j as int]@));
            }
            j = j + 1;
        }
        assert(string_views(fs@).take(fs.len() as int) == string_views(fs@));
        assert(all_features(features@.take(i + 1)) == base + string_views(fs@));
        i = i + 1;
    }
    assert(features@.take(features.len() as int) == features@);
    vocab
}

/// The features of every candidate, in turn.
pub open spec fn all_features(fs: Seq<Vec<String>>) -> Seq<Seq<char>>
    decreases fs.len(),
{
    if fs.len() == 0 {
        seq![]
    } else {
        all_features(fs.drop_last()) + string_views(fs.last()@)
    }
}

/// How many times `w` occurs in `s`.
pub open spec fn occurrences(s: Seq<Seq<char>>, w: Seq<char>) -> nat
    decreases s.len(),
{
    if s.len() == 0 {
        0
    } else {
        occurrences(s.drop_last(), w) + if s.last() == w { 1nat } else { 0nat }
    }
}

/// The term counts of `feats` over `vocab`: for each vocabulary word, how
/// many times it occurs among the features.
pub fn term_counts(feats: &Vec<String>, vocab: &Vec<String>) -> (r: Vec<usize>)
    ensures
        r@.len() == vocab@.len(),
        forall|k: int| 0 <= k < vocab@.len() ==> r@[k] as nat == occurrences(string_views(feats@), #[trigger] vocab@[k]@),
{
    let mut counts: Vec<usize> = Vec::new();
    let mut k: usize = 0;
    while k < vocab.len()
        invariant
            k <= vocab.len(),
            counts@.len() == k,
            forall|t: int| 0 <= t < k ==> counts@[t] as nat == occurrences(string_views(feats@), #[trigger] vocab@[t]@),
        decreases vocab.len() - k,
    {
        let mut n: usize = 0;
        let mut i: usize = 0;
        while i < feats.len()
            invariant
                i <= feats.len(),
                k < vocab.len(),
                n <= i,
                n as nat == occurrences(string_views(feats@).take(i as int), vocab@[k as int]@),
            decreases feats.len() - i,
        {
            assert(string_views(feats@).take(i + 1).drop_last() == string_views(feats@).take(i as int));
            if text_eq(feats[i].as_str(), vocab[k].as_str()) {
                n = n + 1;
            }
            i = i + 1;
        }
        assert(string_views(feats@).take(feats.len() as int) == string_views(feats@));
        counts.push(n);
        k = k + 1;
    }
    counts
}

/// How many of the texts of `d` occur in `q`.
pub open spec fn count_in(d: Seq<Seq<char>>, q: Seq<Seq<char>>) -> nat
    decreases d.len(),
{
    if d.len() == 0 {
        0
    } else {
        count_in(d.drop_last(), q) + if q.contains(d.last()) { 1nat } else { 0nat }
    }
}

/// The lexical baseline's overlap of a query with a candidate's tags: how
/// many distinct tags are query tokens, and how many distinct tags there are.
pub fn tag_overlap(query: &str, tags: &Vec<String>) -> (r: (usize, usize))
    ensures
        r.1 as int == distinct(string_views(tags@)).len(),
        r.0 as int == count_in(distinct(string_views(tags@)), tokens(query@)),
{
    let q = word_tokens(query);
    let mut seen: Vec<String> = Vec::new();
    let mut hits: usize = 0;
    let ghost tv = string_views(tags@);
    let ghost qv = tokens(query@);
    let mut i: usize = 0;
    while i < tags.len()
        invariant
            i <= tags.len(),
            tv == string_views(tags@),
            qv == string_views(q@),
            string_views(seen@) == distinct(tv.take(i as int)),
            seen@.len() <= i,
            hits as int == count_in(distinct(tv.take(i as int)), qv),
            hits <= i,
        decreases tags.len() - i,
    {
        let ghost d0 = distinct(tv.take(i as int));
        assert(tv.take(i + 1).drop_last() == tv.take(i as int));
        assert(tv.take(i + 1).last() == tags@[i as int]@);
        if !holds(&seen, &tags[i]) {
            let t = tags[i].clone();
            let in_query = holds(&q, &t);
            seen.push(t);
            proof {
                let d1 = d0.push(tags@[i as int]@);
                assert(d1.drop_last() == d0);
            }
            if in_query {
                hits = hits + 1;
            }
            assert(string_views(seen@) =~= distinct(tv.take(i + 1)));
        }
        i = i + 1;
    }
    assert(tv.take(tags.len() as int) == tv);
    (hits, seen.len())
}

/// The lexical baseline retriever: relevance from exact tag overlap.
pub struct TagRetriever;

/// The vocabulary-embedding retriever: relevance from the cosine of term
/// counts over the corpus vocabulary.
pub struct EmbeddingRetriever;

impl EmbeddingRetriever {
    /// A retriever (it holds no state).
    pub fn new() -> (r: Self) {
        EmbeddingRetriever
    }
}


proof fn lemma_token_state_clean(s: Seq<char>)
    ensures
        forall|i: int| 0 <= i < token_state(s).0.len() ==> #[trigger] token_state(s).0[i].len() > 0
            && !stop_word(token_state(s).0[i]),
    decreases s.len(),
{
    if s.len() > 0 {
        lemma_token_state_clean(s.drop_last());
        let (out, cur) = token_state(s.drop_last());
        let c = s.last();
        if !alphanumeric(c) && cur.len() > 0 && !stop_word(cur) {
            assert forall|i: int| 0 <= i < out.push(cur).len() implies #[trigger] out.push(cur)[i].len() > 0
                && !stop_word(out.push(cur)[i]) by {
                if i < out.len() {
                    assert(out.push(cur)[i] == out[i]);
                }
            }
        }
    }
}

/// Every token is non-empty and no token is a stop word.
pub proof fn lemma_tokens_clean(s: Seq<char>)
    ensures
        forall|i: int| 0 <= i < tokens(s).len() ==> #[trigger] tokens(s)[i].len() > 0 && !stop_word(tokens(s)[i]),
{
    lemma_token_state_clean(s);
    let (out, cur) = token_state(s);
    if cur.len() > 0 && !stop_word(cur) {
        assert forall|i: int| 0 <= i < out.push(cur).len() implies #[trigger] out.push(cur)[i].len() > 0
            && !stop_word(out.push(cur)[i]) by {
            if i < out.len() {
                assert(out.push(cur)[i] == out[i]);
            }
        }
    }
}

/// The vocabulary holds each feature exactly once: no text twice, and a
/// text is in it exactly when some feature is that text.
pub proof fn lemma_distinct_unique(s: Seq<Seq<char>>)
    ensures
        distinct(s).no_duplicates(),
        forall|t: Seq<char>| distinct(s).contains(t) <==> s.contains(t),
    decreases s.len(),
{
    if s.len() > 0 {
        let p = s.drop_last();
        lemma_distinct_unique(p);
        let d = distinct(p);
        let x = s.last();
        assert forall|t: Seq<char>| distinct(s).contains(t) <==> s.contains(t) by {
            if s.contains(t) {
                let k = choose|k: int| 0 <= k < s.len() && s[k] == t;
                if k < s.len() - 1 {
                    assert(p[k] == t);
                    assert(p.contains(t));
                }
            }
            if p.contains(t) {
                let k = choose|k: int| 0 <= k < p.len() && p[k] == t;
                assert(s[k] == t);
            }
            if !d.contains(x) {
                assert(d.push(x)[d.len() as int] == x);
                if d.contains(t) {
                    let k = choose|k: int| 0 <= k < d.len() && d[k] == t;
                    assert(d.push(x)[k] == t);
                }
                if d.push(x).contains(t) {
                    let k = choose|k: int| 0 <= k < d.push(x).len() && d.push(x)[k] == t;
                    if k < d.len() {
                        assert(d[k] == t);
                    }
                }
            }
            assert(s[s.len() - 1] == x);
        }
        if !d.contains(x) {
            let e = d.push(x);
            assert forall|i: int, j: int| 0 <= i < e.len() && 0 <= j < e.len() && i != j implies e[i] != e[j] by {
                if i < d.len() && j < d.len() {
                    assert(e[i] == d[i] && e[j] == d[j]);
                } else if i < d.len() {
                    assert(e[i] == d[i]);
                } else if j < d.len() {
                    assert(e[j] == d[j]);
                }
            }
        }
    }
}

} // verus!
