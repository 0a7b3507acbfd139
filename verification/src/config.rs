//! The theme-file substitution: lines of a stylesheet are rewritten at the
//! two marker tokens, the background marker line and the foreground marker
//! line, each replaced by a `@define-color` declaration carrying the new
//! hex color. Pure: the caller reads and writes the file; this module only
//! maps old lines to new lines.

use vstd::prelude::*;

verus! {

/// The background marker token `{variant:bg}` as bytes.
pub open spec fn spec_marker_bg() -> Seq<u8> {
    seq![
        '{' as u8,
        'v' as u8,
        'a' as u8,
        'r' as u8,
        'i' as u8,
        'a' as u8,
        'n' as u8,
        't' as u8,
        ':' as u8,
        'b' as u8,
        'g' as u8,
        '}' as u8,
    ]
}

/// The foreground marker token `{variant:fg}` as bytes.
pub open spec fn spec_marker_fg() -> Seq<u8> {
    seq![
        '{' as u8,
        'v' as u8,
        'a' as u8,
        'r' as u8,
        'i' as u8,
        'a' as u8,
        'n' as u8,
        't' as u8,
        ':' as u8,
        'f' as u8,
        'g' as u8,
        '}' as u8,
    ]
}

/// `@define-color background ` — what precedes the color on a rewritten
/// background line.
pub open spec fn spec_bg_prefix() -> Seq<u8> {
    seq![
        '@' as u8,
        'd' as u8,
        'e' as u8,
        'f' as u8,
        'i' as u8,
        'n' as u8,
        'e' as u8,
        '-' as u8,
        'c' as u8,
        'o' as u8,
        'l' as u8,
        'o' as u8,
        'r' as u8,
        ' ' as u8,
        'b' as u8,
        'a' as u8,
        'c' as u8,
        'k' as u8,
        'g' as u8,
        'r' as u8,
        'o' as u8,
        'u' as u8,
        'n' as u8,
        'd' as u8,
        ' ' as u8,
    ]
}

/// `@define-color text-foreground ` — what precedes the color on a
/// rewritten foreground line.
pub open spec fn spec_fg_prefix() -> Seq<u8> {
    seq![
        '@' as u8,
        'd' as u8,
        'e' as u8,
        'f' as u8,
        'i' as u8,
        'n' as u8,
        'e' as u8,
        '-' as u8,
        'c' as u8,
        'o' as u8,
        'l' as u8,
        'o' as u8,
        'r' as u8,
        ' ' as u8,
        't' as u8,
        'e' as u8,
        'x' as u8,
        't' as u8,
        '-' as u8,
        'f' as u8,
        'o' as u8,
        'r' as u8,
        'e' as u8,
        'g' as u8,
        'r' as u8,
        'o' as u8,
        'u' as u8,
        'n' as u8,
        'd' as u8,
        ' ' as u8,
    ]
}

/// `; /* ` + marker + ` */` — what follows the color on a rewritten line,
/// keeping the marker in a trailing comment.
pub open spec fn spec_suffix(marker: Seq<u8>) -> Seq<u8> {
    seq![';' as u8, ' ' as u8, '/' as u8, '*' as u8, ' ' as u8] + marker + seq![
        ' ' as u8,
        '*' as u8,
        '/' as u8,
    ]
}

/// The pattern occurs in the line starting at position `i`.
pub open spec fn spec_match_at(line: Seq<u8>, pat: Seq<u8>, i: int) -> bool {
    0 <= i && i + pat.len() <= line.len() && line.subrange(i, i + pat.len()) == pat
}

/// The pattern occurs somewhere in the line.
pub open spec fn spec_contains_pat(line: Seq<u8>, pat: Seq<u8>) -> bool {
    exists|i: int| spec_match_at(line, pat, i)
}

/// How one line is rewritten: a line holding the background marker becomes
/// the background declaration, otherwise a line holding the foreground
/// marker becomes the foreground declaration, and any other line is kept.
pub open spec fn spec_rewrite_line(line: Seq<u8>, bg: Seq<u8>, fg: Seq<u8>) -> Seq<u8> {
    if spec_contains_pat(line, spec_marker_bg()) {
        spec_bg_prefix() + bg + spec_suffix(spec_marker_bg())
    } else if spec_contains_pat(line, spec_marker_fg()) {
        spec_fg_prefix() + fg + spec_suffix(spec_marker_fg())
    } else {
        line
    }
}

fn contains_pat(line: &Vec<u8>, pat: &Vec<u8>) -> (r: bool)
    requires
        pat@.len() >= 1,
    ensures
        r == spec_contains_pat(line@, pat@),
{
    if line.len() < pat.len() {
        proof {
            assert forall|i: int| !spec_match_at(line@, pat@, i) by {}
        }
        return false;
    }
    let mut i: usize = 0;
    while i <= line.len() - pat.len()
        invariant
            pat@.len() >= 1,
            pat@.len() <= line@.len(),
            i <= line@.len() - pat@.len() + 1,
            forall|t: int| 0 <= t < i ==> !spec_match_at(line@, pat@, t),
        decreases line@.len() - pat@.len() - i + 1,
    {
        let mut m: usize = 0;
        while m < pat.len()
            invariant
                m <= pat@.len(),
                i + pat@.len() <= line@.len(),
                line@.len() <= usize::MAX as int,
                forall|u: int| 0 <= u < m ==> line@[i + u] == pat@[u],
            ensures
                m <= pat@.len(),
                forall|u: int| 0 <= u < m ==> line@[i + u] == pat@[u],
                m == pat@.len() || line@[i + m] != pat@[m as int],
            decreases pat@.len() - m,
        {
            proof {
                assert(i + m < line@.len());
            }
            let idx: usize = i + m;
            if line[idx] != pat[m] {
                break ;
            }
            m += 1;
        }
        if m == pat.len() {
            proof {
                assert(line@.subrange(i as int, i + pat@.len()) =~= pat@);
                assert(spec_match_at(line@, pat@, i as int));
            }
            return true;
        }
        proof {
            assert(!spec_match_at(line@, pat@, i as int)) by {
                if spec_match_at(line@, pat@, i as int) {
                    assert(line@.subrange(i as int, i + pat@.len())[m as int] == pat@[m as int]);
                }
            }
        }
        i += 1;
    }
    proof {
        assert forall|t: int| !spec_match_at(line@, pat@, t) by {
            if t >= i {
                assert(t + pat@.len() > line@.len());
            }
        }
    }
    false
}

fn marker_bg() -> (v: Vec<u8>)
    ensures
        v@ == spec_marker_bg(),
{
    let mut v: Vec<u8> = Vec::new();
    v.push('{' as u8);
    v.push('v' as u8);
    v.push('a' as u8);
    v.push('r' as u8);
    v.push('i' as u8);
    v.push('a' as u8);
    v.push('n' as u8);
    v.push('t' as u8);
    v.push(':' as u8);
    v.push('b' as u8);
    v.push('g' as u8);
    v.push('}' as u8);
    proof {
        assert(v@ =~= spec_marker_bg());
    }
    v
}

fn marker_fg() -> (v: Vec<u8>)
    ensures
        v@ == spec_marker_fg(),
{
    let mut v: Vec<u8> = Vec::new();
    v.push('{' as u8);
    v.push('v' as u8);
    v.push('a' as u8);
    v.push('r' as u8);
    v.push('i' as u8);
    v.push('a' as u8);
    v.push('n' as u8);
    v.push('t' as u8);
    v.push(':' as u8);
    v.push('f' as u8);
    v.push('g' as u8);
    v.push('}' as u8);
    proof {
        assert(v@ =~= spec_marker_fg());
    }
    v
}

fn push_all(v: &mut Vec<u8>, s: &Vec<u8>)
    ensures
        final(v)@ == old(v)@ + s@,
{
    let mut i: usize = 0;
    while i < s.len()
        invariant
            i <= s@.len(),
            v@ == old(v)@ + s@.subrange(0, i as int),
        decreases s@.len() - i,
    {
        v.push(s[i]);
        proof {
            assert(old(v)@ + s@.subrange(0, i as int) + seq![s@[i as int]] =~= old(v)@
                + s@.subrange(0, i + 1));
        }
        i += 1;
    }
    proof {
        assert(s@.subrange(0, s@.len() as int) =~= s@);
    }
}

fn bg_line(bg: &Vec<u8>) -> (v: Vec<u8>)
    ensures
        v@ == spec_bg_prefix() + bg@ + spec_suffix(spec_marker_bg()),
{
    let mut v: Vec<u8> = Vec::new();
    v.push('@' as u8);
    v.push('d' as u8);
    v.push('e' as u8);
    v.push('f' as u8);
    v.push('i' as u8);
    v.push('n' as u8);
    v.push('e' as u8);
    v.push('-' as u8);
    v.push('c' as u8);
    v.push('o' as u8);
    v.push('l' as u8);
    v.push('o' as u8);
    v.push('r' as u8);
    v.push(' ' as u8);
    v.push('b' as u8);
    v.push('a' as u8);
    v.push('c' as u8);
    v.push('k' as u8);
    v.push('g' as u8);
    v.push('r' as u8);
    v.push('o' as u8);
    v.push('u' as u8);
    v.push('n' as u8);
    v.push('d' as u8);
    v.push(' ' as u8);
    proof {
        assert(v@ =~= spec_bg_prefix());
    }
    push_all(&mut v, bg);
    v.push(';' as u8);
    v.push(' ' as u8);
    v.push('/' as u8);
    v.push('*' as u8);
    v.push(' ' as u8);
    let m = marker_bg();
    push_all(&mut v, &m);
    v.push(' ' as u8);
    v.push('*' as u8);
    v.push('/' as u8);
    proof {
        assert(v@ =~= spec_bg_prefix() + bg@ + spec_suffix(spec_marker_bg()));
    }
    v
}

fn fg_line(fg: &Vec<u8>) -> (v: Vec<u8>)
    ensures
        v@ == spec_fg_prefix() + fg@ + spec_suffix(spec_marker_fg()),
{
    let mut v: Vec<u8> = Vec::new();
    v.push('@' as u8);
    v.push('d' as u8);
    v.push('e' as u8);
    v.push('f' as u8);
    v.push('i' as u8);
    v.push('n' as u8);
    v.push('e' as u8);
    v.push('-' as u8);
    v.push('c' as u8);
    v.push('o' as u8);
    v.push('l' as u8);
    v.push('o' as u8);
    v.push('r' as u8);
    v.push(' ' as u8);
    v.push('t' as u8);
    v.push('e' as u8);
    v.push('x' as u8);
    v.push('t' as u8);
    v.push('-' as u8);
    v.push('f' as u8);
    v.push('o' as u8);
    v.push('r' as u8);
    v.push('e' as u8);
    v.push('g' as u8);
    v.push('r' as u8);
    v.push('o' as u8);
    v.push('u' as u8);
    v.push('n' as u8);
    v.push('d' as u8);
    v.push(' ' as u8);
    proof {
        assert(v@ =~= spec_fg_prefix());
    }
    push_all(&mut v, fg);
    v.push(';' as u8);
    v.push(' ' as u8);
    v.push('/' as u8);
    v.push('*' as u8);
    v.push(' ' as u8);
    let m = marker_fg();
    push_all(&mut v, &m);
    v.push(' ' as u8);
    v.push('*' as u8);
    v.push('/' as u8);
    proof {
        assert(v@ =~= spec_fg_prefix() + fg@ + spec_suffix(spec_marker_fg()));
    }
    v
}

/// Rewrites the lines of a theme stylesheet: marker lines are replaced by
/// declarations of the new background and foreground colors, every other
/// line is kept unchanged, in order.
pub fn rewrite_theme_lines(lines: &Vec<Vec<u8>>, bg: &Vec<u8>, fg: &Vec<u8>) -> (r: Vec<Vec<u8>>)
    ensures
        r@.len() == lines@.len(),
        forall|i: int|
            0 <= i < lines@.len() ==> #[trigger] r@[i]@ == spec_rewrite_line(lines@[i]@, bg@, fg@),
{
    let mbg = marker_bg();
    let mfg = marker_fg();
    let mut r: Vec<Vec<u8>> = Vec::new();
    let mut i: usize = 0;
    while i < lines.len()
        invariant
            i <= lines@.len(),
            r@.len() == i,
            mbg@ == spec_marker_bg(),
            mfg@ == spec_marker_fg(),
            forall|t: int|
                0 <= t < i ==> #[trigger] r@[t]@ == spec_rewrite_line(lines@[t]@, bg@, fg@),
        decreases lines@.len() - i,
    {
        let line = &lines[i];
        if contains_pat(line, &mbg) {
            r.push(bg_line(bg));
        } else if contains_pat(line, &mfg) {
            r.push(fg_line(fg));
        } else {
            let mut copy: Vec<u8> = Vec::new();
            push_all(&mut copy, line);
            proof {
                assert(copy@ =~= lines@[i as int]@);
            }
            r.push(copy);
        }
        i += 1;
    }
    r
}

} // verus!
