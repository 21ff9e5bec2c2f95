//! The text form of floating-point numbers that std's `f64::from_str`
//! accepts.

use vstd::prelude::*;

verus! {

/// An ASCII decimal digit.
pub open spec fn is_digit(c: char) -> bool {
    '0' <= c && c <= '9'
}

/// ASCII lower case of one character.
pub open spec fn ascii_lower(c: char) -> char {
    if 'A' <= c && c <= 'Z' { ((c as u8) + 32) as u8 as char } else { c }
}

/// Position of the first exponent marker (`e` or `E`), or the length.
pub open spec fn exp_pos(b: Seq<char>) -> int
    decreases b.len(),
{
    if b.len() == 0 {
        0
    } else if b[0] == 'e' || b[0] == 'E' {
        0
    } else {
        1 + exp_pos(b.drop_first())
    }
}

/// Digits with at most one decimal point and at least one digit.
pub open spec fn is_mantissa(m: Seq<char>) -> bool {
    &&& forall|i: int| 0 <= i < m.len() ==> is_digit(#[trigger] m[i]) || m[i] == '.'
    &&& forall|i: int, j: int| 0 <= i < m.len() && 0 <= j < m.len() && #[trigger] m[i] == '.' && #[trigger] m[j] == '.' ==> i == j
    &&& exists|i: int| 0 <= i < m.len() && is_digit(#[trigger] m[i])
}

/// An optional sign followed by at least one digit.
pub open spec fn is_exponent(x: Seq<char>) -> bool {
    is_digits(unsigned(x))
}

/// `x` without one leading sign character.
pub open spec fn unsigned(x: Seq<char>) -> Seq<char> {
    if x.len() > 0 && (x[0] == '+' || x[0] == '-') { x.drop_first() } else { x }
}

/// At least one character, all of them digits.
pub open spec fn is_digits(y: Seq<char>) -> bool {
    y.len() >= 1 && forall|i: int| 0 <= i < y.len() ==> is_digit(#[trigger] y[i])
}

/// `inf`, `infinity` or `nan`, ignoring ASCII case.
pub open spec fn is_special(b: Seq<char>) -> bool {
    let l = b.map_values(|c: char| ascii_lower(c));
    l == "inf"@ || l == "infinity"@ || l == "nan"@
}

/// A number: mantissa, then optionally an exponent marker and an exponent.
pub open spec fn is_decimal(b: Seq<char>) -> bool {
    let e = exp_pos(b);
    is_mantissa(b.take(e)) && (e == b.len() || is_exponent(b.skip(e + 1)))
}

/// The grammar of `f64::from_str`: an optional sign, then `inf`,
/// `infinity`, `nan` or a decimal number with optional exponent.
pub open spec fn is_float_text(s: Seq<char>) -> bool {
    let b = if s.len() > 0 && (s[0] == '+' || s[0] == '-') { s.drop_first() } else { s };
    is_special(b) || is_decimal(b)
}

proof fn lemma_exp_pos(b: Seq<char>, e: int)
    requires
        0 <= e <= b.len(),
        forall|k: int| 0 <= k < e ==> b[k] != 'e' && b[k] != 'E',
        e == b.len() || b[e] == 'e' || b[e] == 'E',
    ensures
        exp_pos(b) == e,
    decreases e,
{
    if e > 0 {
        lemma_exp_pos(b.drop_first(), e - 1);
    }
}

fn lower_equals(v: &Vec<char>, from: usize, word: &str) -> (r: bool)
    requires
        from <= v.len(),
    ensures
        r == (v@.skip(from as int).map_values(|c: char| ascii_lower(c)) == word@),
{
    let w = crate::strutil::str_chars(word);
    let ghost l = v@.skip(from as int).map_values(|c: char| ascii_lower(c));
    if v.len() - from != w.len() {
        return false;
    }
    let mut i: usize = 0;
    while i < w.len()
        invariant
            from + w.len() == v.len(),
            i <= w.len(),
            w@ == word@,
            l == v@.skip(from as int).map_values(|c: char| ascii_lower(c)),
            forall|k: int| 0 <= k < i ==> l[k] == w@[k],
        decreases w.len() - i,
    {
        let c = v[from + i];
        let lc = if 'A' <= c && c <= 'Z' { ((c as u8) + 32) as char } else { c };
        assert(l[i as int] == lc);
        if lc != w[i] {
            return false;
        }
        i = i + 1;
    }
    assert(l =~= w@);
    true
}

fn all_digits(v: &Vec<char>, from: usize, to: usize) -> (r: bool)
    requires
        from <= to <= v.len(),
    ensures
        r == (forall|i: int| from <= i < to ==> is_digit(#[trigger] v@[i])),
{
    let mut i = from;
    while i < to
        invariant
            from <= i <= to <= v.len(),
            forall|k: int| from <= k < i ==> is_digit(#[trigger] v@[k]),
        decreases to - i,
    {
        if !('0' <= v[i] && v[i] <= '9') {
            return false;
        }
        i = i + 1;
    }
    true
}

/// Whether `v[from..to]` is a mantissa.
fn mantissa_check(v: &Vec<char>, from: usize, to: usize) -> (r: bool)
    requires
        from <= to <= v.len(),
    ensures
        r == is_mantissa(v@.subrange(from as int, to as int)),
{
    let ghost m = v@.subrange(from as int, to as int);
    let mut digits = false;
    let mut dot: Option<usize> = None;
    let mut i = from;
    while i < to
        invariant
            from <= i <= to <= v.len(),
            m == v@.subrange(from as int, to as int),
            forall|k: int| from <= k < i ==> is_digit(#[trigger] v@[k]) || v@[k] == '.',
            digits <==> exists|k: int| from <= k < i && is_digit(#[trigger] v@[k]),
            match dot {
                Some(d) => from <= d < i && v@[d as int] == '.' && forall|k: int| from <= k < i && v@[k] == '.' ==> k == d,
                None => forall|k: int| from <= k < i ==> v@[k] != '.',
            },
        decreases to - i,
    {
        let c = v[i];
        if '0' <= c && c <= '9' {
            digits = true;
        } else if c == '.' {
            if dot.is_some() {
                proof {
                    let d = dot.unwrap() as int;
                    assert(m[d - from] == '.' && m[i - from] == '.');
                }
                return false;
            }
            dot = Some(i);
        } else {
            assert(!(is_digit(m[i - from]) || m[i - from] == '.'));
            return false;
        }
        i = i + 1;
    }
    if !digits {
        proof {
            assert forall|k: int| 0 <= k < m.len() implies !is_digit(#[trigger] m[k]) by {
                assert(m[k] == v@[from + k]);
            }
        }
        return false;
    }
    proof {
        let k = choose|k: int| from <= k < to && is_digit(#[trigger] v@[k]);
        assert(m[k - from] == v@[k]);
        assert forall|a: int, c: int| 0 <= a < m.len() && 0 <= c < m.len() && #[trigger] m[a] == '.' && #[trigger] m[c] == '.' implies a == c by {
            assert(m[a] == v@[from + a]);
            assert(m[c] == v@[from + c]);
        }
        assert forall|a: int| 0 <= a < m.len() implies is_digit(#[trigger] m[a]) || m[a] == '.' by {
            assert(m[a] == v@[from + a]);
        }
    }
    true
}

/// Whether `v[from..]` is an exponent (optional sign, then digits).
fn exponent_check(v: &Vec<char>, from: usize) -> (r: bool)
    requires
        from <= v.len(),
    ensures
        r == is_exponent(v@.skip(from as int)),
{
    let ghost x = v@.skip(from as int);
    assert(x.len() > 0 ==> x[0] == v@[from as int]);
    let es: usize = if from < v.len() && (v[from] == '+' || v[from] == '-') { from + 1 } else { from };
    let ghost y = unsigned(x);
    assert(y =~= v@.skip(es as int));
    if es >= v.len() {
        return false;
    }
    let ok = all_digits(v, es, v.len());
    proof {
        if ok {
            assert forall|k: int| 0 <= k < y.len() implies is_digit(#[trigger] y[k]) by {
                assert(y[k] == v@[es + k]);
            }
        } else {
            let k = choose|k: int| es <= k < v.len() && !is_digit(#[trigger] v@[k]);
            assert(y[k - es] == v@[k]);
        }
        assert(y.len() >= 1);
    }
    ok
}

/// Whether `v` is the text of a number that `f64::from_str` accepts.
pub fn is_float(v: &Vec<char>) -> (r: bool)
    ensures
        r == is_float_text(v@),
{
    let start: usize = if v.len() > 0 && (v[0] == '+' || v[0] == '-') { 1 } else { 0 };
    let ghost b = v@.skip(start as int);
    assert(b =~= (if v@.len() > 0 && (v@[0] == '+' || v@[0] == '-') { v@.drop_first() } else { v@ }));
    if lower_equals(v, start, "inf") || lower_equals(v, start, "infinity") || lower_equals(v, start, "nan") {
        return true;
    }
    let mut e = start;
    while e < v.len() && v[e] != 'e' && v[e] != 'E'
        invariant
            start <= e <= v.len(),
            forall|k: int| start <= k < e ==> v@[k] != 'e' && v@[k] != 'E',
        decreases v.len() - e,
    {
        e = e + 1;
    }
    proof {
        lemma_exp_pos(b, (e - start) as int);
        assert(b.take(e - start) =~= v@.subrange(start as int, e as int));
    }
    if !mantissa_check(v, start, e) {
        return false;
    }
    if e == v.len() {
        return true;
    }
    assert(b.skip(e - start + 1) =~= v@.skip(e + 1));
    exponent_check(v, e + 1)
}

} // verus!
