//! The icon path tokenizer: SVG path data split into commands, each with the
//! texts of its numbers, and a move with further coordinate pairs expanded
//! into a move and line commands. The numbers stay text; readers of the
//! geometry convert them.

use crate::numtext::{is_float, is_float_text};
use vstd::prelude::*;

verus! {

/// One path command: its letter and the texts of its numbers.
pub struct PathCmdText {
    pub cmd: char,
    pub args: Vec<String>,
}

impl View for PathCmdText {
    type V = (char, Seq<Seq<char>>);

    open spec fn view(&self) -> (char, Seq<Seq<char>>) {
        (self.cmd, self.args@.map_values(|a: String| a@))
    }
}

/// An ASCII letter.
pub open spec fn is_letter(c: char) -> bool {
    ('a' <= c && c <= 'z') || ('A' <= c && c <= 'Z')
}

/// An ASCII digit.
pub open spec fn is_digit(c: char) -> bool {
    '0' <= c && c <= '9'
}

/// Where the run of digits and points from `j` ends.
pub open spec fn number_end(cs: Seq<char>, j: int) -> int
    decreases cs.len() - j,
{
    if j < cs.len() && (is_digit(cs[j]) || cs[j] == '.') {
        number_end(cs, j + 1)
    } else {
        j
    }
}

/// The commands so far with the current command, if any, closed with its
/// numbers.
pub open spec fn flushed(out: Seq<(char, Seq<Seq<char>>)>, cur: Option<char>, args: Seq<Seq<char>>) -> Seq<(char, Seq<Seq<char>>)> {
    match cur {
        Some(c) => out.push((c, args)),
        None => out,
    }
}

/// The commands read from position `i` on, given those read so far, the
/// open command and its numbers so far: a letter opens a command (closing
/// the open one); a digit, `-` or `.` starts a number (a `-` kept, a leading
/// `.` read as `0.`) running over digits and points, kept when it is a
/// number text; anything else is skipped.
pub open spec fn scan(cs: Seq<char>, i: int, out: Seq<(char, Seq<Seq<char>>)>, cur: Option<char>, args: Seq<Seq<char>>) -> Seq<(char, Seq<Seq<char>>)>
    decreases cs.len() - i,
{
    if i < 0 || i >= cs.len() {
        flushed(out, cur, args)
    } else if is_letter(cs[i]) {
        scan(cs, i + 1, flushed(out, cur, args), Some(cs[i]), seq![])
    } else if is_digit(cs[i]) || cs[i] == '-' || cs[i] == '.' {
        let start = if is_digit(cs[i]) { i } else { i + 1 };
        let prefix = if cs[i] == '-' { seq!['-'] } else if cs[i] == '.' { seq!['0', '.'] } else { seq![] };
        let e = number_end(cs, start);
        let num = prefix + cs.subrange(start, e);
        if e <= i || e > cs.len() {
            flushed(out, cur, args)
        } else {
            scan(cs, e, out, cur, if is_float_text(num) { args.push(num) } else { args })
        }
    } else {
        scan(cs, i + 1, out, cur, args)
    }
}

/// One command with a move's further coordinate pairs expanded: `M x y x2 y2
/// ...` (or `m`) becomes the move with its first pair and one `L` per
/// further pair (a lone number left over is dropped).
pub open spec fn expand_one(c: (char, Seq<Seq<char>>)) -> Seq<(char, Seq<Seq<char>>)> {
    if (c.0 == 'M' || c.0 == 'm') && c.1.len() > 2 {
        seq![(c.0, c.1.take(2))] + Seq::new(
            ((c.1.len() - 2) / 2) as nat,
            |j: int| ('L', seq![c.1[2 + 2 * j], c.1[3 + 2 * j]]),
        )
    } else {
        seq![c]
    }
}

/// All commands with their moves expanded.
pub open spec fn expand(cmds: Seq<(char, Seq<Seq<char>>)>) -> Seq<(char, Seq<Seq<char>>)>
    decreases cmds.len(),
{
    if cmds.len() == 0 {
        seq![]
    } else {
        expand(cmds.drop_last()) + expand_one(cmds.last())
    }
}

/// The commands of path data `d`.
pub open spec fn path_commands(d: Seq<char>) -> Seq<(char, Seq<Seq<char>>)> {
    expand(scan(d, 0, seq![], None, seq![]))
}

proof fn lemma_number_end(cs: Seq<char>, j: int, k: int)
    requires
        0 <= j <= k <= cs.len(),
        forall|m: int| j <= m < k ==> is_digit(cs[m]) || cs[m] == '.',
    ensures
        number_end(cs, j) == number_end(cs, k),
        number_end(cs, k) >= k,
    decreases k - j,
{
    if j < k {
        lemma_number_end(cs, j + 1, k);
    } else {
        lemma_number_end_ge(cs, k);
    }
}

proof fn lemma_number_end_ge(cs: Seq<char>, j: int)
    ensures
        number_end(cs, j) >= j,
    decreases cs.len() - j,
{
    if j < cs.len() && (is_digit(cs[j]) || cs[j] == '.') {
        lemma_number_end_ge(cs, j + 1);
    }
}

/// The views of a list of commands.
pub open spec fn cmd_views(v: Seq<PathCmdText>) -> Seq<(char, Seq<Seq<char>>)> {
    v.map_values(|c: PathCmdText| c@)
}

/// The views of a list of strings.
pub open spec fn text_views(v: Seq<String>) -> Seq<Seq<char>> {
    v.map_values(|a: String| a@)
}

fn close_cmd(out: &mut Vec<PathCmdText>, letter: char, args: Vec<String>)
    ensures
        cmd_views(final(out)@) == cmd_views(old(out)@).push((letter, text_views(args@))),
{
    let item = PathCmdText { cmd: letter, args: args };
    let ghost before = out@;
    let ghost iv = item@;
    assert(iv =~= (letter, text_views(args@)));
    out.push(item);
    assert(cmd_views(out@) =~= cmd_views(before).push(iv));
}

fn close(out: &mut Vec<PathCmdText>, cur: Option<char>, args: Vec<String>)
    ensures
        cmd_views(final(out)@) == flushed(cmd_views(old(out)@), cur, text_views(args@)),
{
    match cur {
        Some(letter) => close_cmd(out, letter, args),
        None => {},
    }
}

/// Splits path data into commands (before expanding moves).
fn scan_path(cs: &Vec<char>) -> (r: Vec<PathCmdText>)
    ensures
        cmd_views(r@) == scan(cs@, 0, seq![], None, seq![]),
{
    let mut out: Vec<PathCmdText> = Vec::new();
    let mut cur: Option<char> = None;
    let mut args: Vec<String> = Vec::new();
    let mut i: usize = 0;
    assert(cmd_views(out@) =~= Seq::<(char, Seq<Seq<char>>)>::empty());
    assert(text_views(args@) =~= Seq::<Seq<char>>::empty());
    while i < cs.len()
        invariant
            i <= cs.len(),
            scan(cs@, i as int, cmd_views(out@), cur, text_views(args@)) == scan(cs@, 0, seq![], None, seq![]),
        decreases cs.len() - i,
    {
        let c = cs[i];
        let ghost ov = cmd_views(out@);
        let ghost av = text_views(args@);
        let ghost oc = cur;
        if ('a' <= c && c <= 'z') || ('A' <= c && c <= 'Z') {
            let mut taken: Vec<String> = Vec::new();
            std::mem::swap(&mut taken, &mut args);
            assert(text_views(taken@) == av);
            close(&mut out, cur, taken);
            cur = Some(c);
            assert(text_views(args@) =~= Seq::<Seq<char>>::empty());
            assert(scan(cs@, i as int, ov, oc, av) == scan(cs@, i + 1, flushed(ov, oc, av), Some(c), seq![]));
            i = i + 1;
        } else if ('0' <= c && c <= '9') || c == '-' || c == '.' {
            let mut num: Vec<char> = Vec::new();
            let start: usize = if '0' <= c && c <= '9' { i } else { i + 1 };
            if c == '-' {
                num.push('-');
            } else if c == '.' {
                num.push('0');
                num.push('.');
            }
            let ghost prefix = num@;
            assert(prefix == (if c == '-' { seq!['-'] } else if c == '.' { seq!['0', '.'] } else { Seq::<char>::empty() }));
            let mut k = start;
            while k < cs.len() && (('0' <= cs[k] && cs[k] <= '9') || cs[k] == '.')
                invariant
                    i <= start <= k <= cs.len(),
                    num@ == prefix + cs@.subrange(start as int, k as int),
                    forall|m: int| start <= m < k ==> is_digit(cs@[m]) || cs@[m] == '.',
                decreases cs.len() - k,
            {
                num.push(cs[k]);
                k = k + 1;
            }
            proof {
                lemma_number_end(cs@, start as int, k as int);
                assert(number_end(cs@, k as int) == k);
            }
            assert(k > i);
            let ghost a0 = text_views(args@);
            if is_float(&num) {
                let s = crate::strutil::string_of_chars(&num);
                args.push(s);
                assert(text_views(args@) =~= a0.push(num@));
            }
            assert(scan(cs@, i as int, ov, oc, av) == scan(cs@, k as int, ov, oc, text_views(args@)));
            i = k;
        } else {
            assert(scan(cs@, i as int, ov, oc, av) == scan(cs@, i + 1, ov, oc, av));
            i = i + 1;
        }
    }
    let mut taken: Vec<String> = Vec::new();
    std::mem::swap(&mut taken, &mut args);
    close(&mut out, cur, taken);
    out
}

/// Tokenizes icon path data into commands: each letter with the number
/// texts that follow it, and each move with further coordinate pairs
/// expanded into the move and `L` commands (see `path_commands`).
pub fn parse_path(d: &str) -> (r: Vec<PathCmdText>)
    ensures
        cmd_views(r@) == path_commands(d@),
{
    let cs = crate::strutil::str_chars(d);
    let cmds = scan_path(&cs);
    let ghost cv = cmd_views(cmds@);
    let mut out: Vec<PathCmdText> = Vec::new();
    let mut i: usize = 0;
    assert(cmd_views(out@) =~= expand(cv.take(0)));
    while i < cmds.len()
        invariant
            i <= cmds.len(),
            cv == cmd_views(cmds@),
            cmd_views(out@) == expand(cv.take(i as int)),
        decreases cmds.len() - i,
    {
        let c = &cmds[i];
        let ghost o = cmd_views(out@);
        let ghost cvi = cv[i as int];
        assert(cv.take(i + 1).drop_last() == cv.take(i as int));
        assert(cvi == c@);
        if (c.cmd == 'M' || c.cmd == 'm') && c.args.len() > 2 {
            let first = PathCmdText { cmd: c.cmd, args: vec![c.args[0].clone(), c.args[1].clone()] };
            assert(first@.1 =~= cvi.1.take(2));
            out.push(first);
            let ghost o1 = cmd_views(out@);
            assert(o1 =~= o.push(first@));
            let mut j: usize = 2;
            while j + 1 < c.args.len()
                invariant
                    2 <= j <= c.args.len(),
                    j % 2 == 0,
                    cvi == c@,
                    c.args.len() > 2,
                    cmd_views(out@) == o1 + Seq::new(((j - 2) / 2) as nat, |m: int| ('L', seq![cvi.1[2 + 2 * m], cvi.1[3 + 2 * m]])),
                decreases c.args.len() - j,
            {
                let line = PathCmdText { cmd: 'L', args: vec![c.args[j].clone(), c.args[j + 1].clone()] };
                let ghost before = cmd_views(out@);
                assert(line@.1 =~= seq![cvi.1[j as int], cvi.1[j + 1]]);
                out.push(line);
                assert(cmd_views(out@) =~= before.push(line@));
                assert(cmd_views(out@) =~= o1 + Seq::new(((j + 2 - 2) / 2) as nat, |m: int| ('L', seq![cvi.1[2 + 2 * m], cvi.1[3 + 2 * m]])));
                j = j + 2;
            }
            assert(cmd_views(out@) =~= o + expand_one(cvi));
        } else {
            let cmd = PathCmdText { cmd: c.cmd, args: c.args.clone() };
            assert(cmd@ =~= cvi) by {
                assert(cmd@.1 =~= cvi.1);
            }
            out.push(cmd);
            assert(cmd_views(out@) =~= o + expand_one(cvi));
        }
        i = i + 1;
    }
    assert(cv.take(cmds.len() as int) == cv);
    out
}

} // verus!
