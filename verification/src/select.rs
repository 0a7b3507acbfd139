//! Ordering of the palette by descending chroma and selection of the two
//! extreme centroids as the theme pair.

use vstd::prelude::*;
use crate::fixmath::sq;
use crate::color::{PerceptualColor, ThemePair, Mode, wf_color, wf_palette};

verus! {

/// Squared chroma of a color: the squared Euclidean norm of the two chroma
/// axes. Comparing squared chroma orders colors exactly as comparing chroma
/// does, with no root needed.
pub open spec fn spec_chroma2(c: PerceptualColor) -> int {
    sq(c.a as int) + sq(c.b as int)
}

/// Every pair of positions is in descending chroma order (so in particular
/// every adjacent pair is).
pub open spec fn sorted_desc(s: Seq<PerceptualColor>) -> bool {
    forall|i: int, j: int|
        0 <= i <= j < s.len() ==> spec_chroma2(s[i]) >= spec_chroma2(s[j])
}

/// Stable insertion into a chroma-descending sequence: the new color moves
/// ahead only of strictly less saturated colors, so ties keep the existing
/// order.
pub open spec fn spec_insert_desc(x: PerceptualColor, s: Seq<PerceptualColor>) -> Seq<
    PerceptualColor,
>
    decreases s.len(),
{
    if s.len() == 0 {
        seq![x]
    } else if spec_chroma2(x) > spec_chroma2(s[0]) {
        seq![x] + s
    } else {
        seq![s[0]] + spec_insert_desc(x, s.drop_first())
    }
}

/// Stable insertion sort of a palette by descending chroma: ties stay in
/// the quantizer's output order.
pub open spec fn spec_order(s: Seq<PerceptualColor>) -> Seq<PerceptualColor>
    decreases s.len(),
{
    if s.len() == 0 {
        Seq::<PerceptualColor>::empty()
    } else {
        spec_insert_desc(s.last(), spec_order(s.drop_last()))
    }
}

proof fn lemma_drop_first_contains(s: Seq<PerceptualColor>, e: PerceptualColor)
    requires
        s.len() > 0,
        s.drop_first().contains(e),
    ensures
        s.contains(e),
{
    let j = choose|j: int| 0 <= j < s.drop_first().len() && s.drop_first()[j] == e;
    assert(s.drop_first()[j] == s[j + 1]);
    assert(s.contains(s[j + 1]));
}

/// Every element of the inserted sequence is the new color or one of the
/// old ones.
proof fn lemma_insert_desc_elems(x: PerceptualColor, s: Seq<PerceptualColor>)
    ensures
        forall|k: int|
            0 <= k < spec_insert_desc(x, s).len() ==> (#[trigger] spec_insert_desc(x, s)[k] == x
                || s.contains(spec_insert_desc(x, s)[k])),
    decreases s.len(),
{
    let ins = spec_insert_desc(x, s);
    if s.len() == 0 {
    } else if spec_chroma2(x) > spec_chroma2(s[0]) {
        assert forall|k: int| 0 <= k < ins.len() implies (#[trigger] ins[k] == x || s.contains(
            ins[k])) by {
            if k > 0 {
                assert(ins[k] == s[k - 1]);
                assert(s.contains(s[k - 1]));
            }
        }
    } else {
        lemma_insert_desc_elems(x, s.drop_first());
        let rest = spec_insert_desc(x, s.drop_first());
        assert forall|k: int| 0 <= k < ins.len() implies (#[trigger] ins[k] == x || s.contains(
            ins[k])) by {
            if k == 0 {
                assert(ins[0] == s[0]);
                assert(s.contains(s[0]));
            } else {
                assert(ins[k] == rest[k - 1]);
                if rest[k - 1] == x {
                } else {
                    assert(s.drop_first().contains(rest[k - 1]));
                    lemma_drop_first_contains(s, rest[k - 1]);
                }
            }
        }
    }
}

proof fn lemma_contained_wf(s: Seq<PerceptualColor>, e: PerceptualColor)
    requires
        wf_palette(s),
        s.contains(e),
    ensures
        wf_color(e),
{
    let m = choose|m: int| 0 <= m < s.len() && s[m] == e;
    assert(wf_color(s[m]));
}

proof fn lemma_insert_desc_sorted(x: PerceptualColor, s: Seq<PerceptualColor>)
    requires
        sorted_desc(s),
    ensures
        sorted_desc(spec_insert_desc(x, s)),
    decreases s.len(),
{
    if s.len() == 0 {
    } else if spec_chroma2(x) > spec_chroma2(s[0]) {
        let t = seq![x] + s;
        assert forall|i: int, j: int| 0 <= i <= j < t.len() implies spec_chroma2(t[i])
            >= spec_chroma2(t[j]) by {
            if i > 0 {
                assert(t[i] == s[i - 1]);
                assert(t[j] == s[j - 1]);
            } else if j > 0 {
                assert(t[j] == s[j - 1]);
                assert(spec_chroma2(s[0]) >= spec_chroma2(s[j - 1]));
            }
        }
    } else {
        let rest = s.drop_first();
        assert(sorted_desc(rest)) by {
            assert forall|i: int, j: int| 0 <= i <= j < rest.len() implies spec_chroma2(rest[i])
                >= spec_chroma2(rest[j]) by {
                assert(rest[i] == s[i + 1]);
                assert(rest[j] == s[j + 1]);
            }
        }
        lemma_insert_desc_sorted(x, rest);
        lemma_insert_desc_elems(x, rest);
        let ins = spec_insert_desc(x, rest);
        let t = seq![s[0]] + ins;
        assert forall|i: int, j: int| 0 <= i <= j < t.len() implies spec_chroma2(t[i])
            >= spec_chroma2(t[j]) by {
            if i > 0 {
                assert(t[i] == ins[i - 1]);
                assert(t[j] == ins[j - 1]);
            } else if j > 0 {
                assert(t[j] == ins[j - 1]);
                if ins[j - 1] == x {
                } else {
                    assert(rest.contains(ins[j - 1]));
                    let m = choose|m: int| 0 <= m < rest.len() && rest[m] == ins[j - 1];
                    assert(rest[m] == s[m + 1]);
                    assert(spec_chroma2(s[0]) >= spec_chroma2(s[m + 1]));
                }
            }
        }
    }
}

proof fn lemma_insert_desc_at(
    x: PerceptualColor,
    s: Seq<PerceptualColor>,
    pos: int,
)
    requires
        sorted_desc(s),
        0 <= pos <= s.len(),
        forall|t: int| 0 <= t < pos ==> spec_chroma2(s[t]) >= spec_chroma2(x),
        pos == s.len() || spec_chroma2(s[pos]) < spec_chroma2(x),
    ensures
        spec_insert_desc(x, s) == s.insert(pos, x),
    decreases s.len(),
{
    if s.len() == 0 {
        assert(spec_insert_desc(x, s) =~= s.insert(0, x));
    } else if pos == 0 {
        assert(spec_chroma2(s[0]) < spec_chroma2(x));
        assert(spec_insert_desc(x, s) =~= s.insert(0, x));
    } else {
        let rest = s.drop_first();
        assert(sorted_desc(rest)) by {
            assert forall|i: int, j: int| 0 <= i <= j < rest.len() implies spec_chroma2(rest[i])
                >= spec_chroma2(rest[j]) by {
                assert(rest[i] == s[i + 1]);
                assert(rest[j] == s[j + 1]);
            }
        }
        assert(forall|t: int| 0 <= t < pos - 1 ==> spec_chroma2(#[trigger] rest[t])
            >= spec_chroma2(x));
        assert(pos - 1 == rest.len() || spec_chroma2(rest[pos - 1]) < spec_chroma2(x));
        lemma_insert_desc_at(x, rest, pos - 1);
        assert(!(spec_chroma2(x) > spec_chroma2(s[0])));
        assert(spec_insert_desc(x, s) == seq![s[0]] + rest.insert(pos - 1, x));
        assert(seq![s[0]] + rest.insert(pos - 1, x) =~= s.insert(pos, x));
    }
}

proof fn lemma_insert_desc_is_insert(x: PerceptualColor, s: Seq<PerceptualColor>)
    requires
        sorted_desc(s),
    ensures
        exists|p: int|
            0 <= p <= s.len() && spec_insert_desc(x, s) == #[trigger] s.insert(p, x),
    decreases s.len(),
{
    if s.len() == 0 {
        assert(spec_insert_desc(x, s) =~= s.insert(0, x));
    } else if spec_chroma2(x) > spec_chroma2(s[0]) {
        assert(spec_insert_desc(x, s) =~= s.insert(0, x));
    } else {
        let rest = s.drop_first();
        assert(sorted_desc(rest)) by {
            assert forall|i: int, j: int| 0 <= i <= j < rest.len() implies spec_chroma2(rest[i])
                >= spec_chroma2(rest[j]) by {
                assert(rest[i] == s[i + 1]);
                assert(rest[j] == s[j + 1]);
            }
        }
        lemma_insert_desc_is_insert(x, rest);
        let p = choose|p: int|
            0 <= p <= rest.len() && spec_insert_desc(x, rest) == #[trigger] rest.insert(p, x);
        assert(seq![s[0]] + rest.insert(p, x) =~= s.insert(p + 1, x));
    }
}

proof fn lemma_insert_desc_multiset(x: PerceptualColor, s: Seq<PerceptualColor>)
    requires
        sorted_desc(s),
    ensures
        spec_insert_desc(x, s).to_multiset() == s.to_multiset().insert(x),
{
    lemma_insert_desc_is_insert(x, s);
    let p = choose|p: int|
        0 <= p <= s.len() && spec_insert_desc(x, s) == #[trigger] s.insert(p, x);
    vstd::seq_lib::to_multiset_insert(s, p, x);
}

/// Law: ordering permutes the palette — the sorted output holds exactly
/// the input's colors, with multiplicity.
pub proof fn lemma_order_permutation(s: Seq<PerceptualColor>)
    ensures
        spec_order(s).to_multiset() == s.to_multiset(),
    decreases s.len(),
{
    if s.len() == 0 {
        assert(s =~= Seq::<PerceptualColor>::empty());
    } else {
        let u = s.drop_last();
        lemma_order_permutation(u);
        lemma_order_sorted(u);
        lemma_insert_desc_multiset(s.last(), spec_order(u));
        assert(s =~= u.push(s.last()));
        vstd::seq_lib::to_multiset_build(u, s.last());
        assert(s.to_multiset() == u.push(s.last()).to_multiset());
        assert(spec_order(s).to_multiset() == spec_order(u).to_multiset().insert(s.last()));
    }
}

/// Computes the squared chroma of a well-formed color.
fn chroma2_val(c: &PerceptualColor) -> (r: i64)
    requires
        wf_color(*c),
    ensures
        r == spec_chroma2(*c),
{
    proof {
        assert(0 <= c.a as int * c.a as int <= 100_000_000 * 100_000_000
            && 0 <= c.b as int * c.b as int <= 100_000_000 * 100_000_000) by (nonlinear_arith)
            requires
                -100_000_000 <= c.a as int <= 100_000_000,
                -100_000_000 <= c.b as int <= 100_000_000,
        ;
    }
    c.a * c.a + c.b * c.b
}

/// Sorts the palette by descending chroma, most saturated first; a stable
/// insertion sort, so centroids of equal chroma keep the quantizer's
/// output order. The result is pinned to `spec_order`, and its descending
/// order is part of the contract.
pub fn order(palette: &Vec<PerceptualColor>) -> (r: Vec<PerceptualColor>)
    requires
        wf_palette(palette@),
    ensures
        r@ == spec_order(palette@),
        sorted_desc(r@),
        r@.to_multiset() == palette@.to_multiset(),
        r@.len() == palette@.len(),
        wf_palette(r@),
{
    let mut r: Vec<PerceptualColor> = Vec::new();
    let mut i: usize = 0;
    proof {
        assert(palette@.take(0) =~= Seq::<PerceptualColor>::empty());
    }
    while i < palette.len()
        invariant
            i <= palette@.len(),
            wf_palette(palette@),
            r@ == spec_order(palette@.take(i as int)),
            r@.len() == i,
            sorted_desc(r@),
            wf_palette(r@),
        decreases palette@.len() - i,
    {
        let x = palette[i];
        let k2x = chroma2_val(&x);
        let mut pos: usize = 0;
        while pos < r.len()
            invariant
                pos <= r@.len(),
                forall|t: int| 0 <= t < pos ==> spec_chroma2(#[trigger] r@[t]) >= spec_chroma2(x),
                wf_palette(r@),
                k2x == spec_chroma2(x),
            ensures
                pos <= r@.len(),
                forall|t: int| 0 <= t < pos ==> spec_chroma2(#[trigger] r@[t]) >= spec_chroma2(x),
                pos == r@.len() || spec_chroma2(r@[pos as int]) < spec_chroma2(x),
            decreases r@.len() - pos,
        {
            let cp = chroma2_val(&r[pos]);
            if cp < k2x {
                break ;
            }
            pos += 1;
        }
        let ghost old_r = r@;
        r.insert(pos, x);
        proof {
            lemma_insert_desc_at(x, old_r, pos as int);
            lemma_insert_desc_sorted(x, old_r);
            lemma_insert_desc_elems(x, old_r);
            assert(palette@.take(i + 1).drop_last() =~= palette@.take(i as int));
            assert(palette@.take(i + 1).last() == palette@[i as int]);
            assert(r@ == spec_order(palette@.take(i + 1)));
            assert forall|t: int| 0 <= t < r@.len() implies wf_color(#[trigger] r@[t]) by {
                if r@[t] == x {
                } else {
                    assert(old_r.contains(r@[t]));
                    lemma_contained_wf(old_r, r@[t]);
                }
            }
        }
        i += 1;
    }
    proof {
        assert(palette@.take(palette@.len() as int) =~= palette@);
        lemma_order_permutation(palette@);
        vstd::seq_lib::to_multiset_len(r@);
        vstd::seq_lib::to_multiset_len(palette@);
    }
    r
}

/// The theme pair a mode picks from an ordered palette: in light mode the
/// most saturated centroid is the background and the least saturated the
/// foreground; dark mode swaps the two roles.
pub open spec fn spec_select_pair(s: Seq<PerceptualColor>, mode: Mode) -> ThemePair {
    let hi = s[0];
    let lo = s[s.len() - 1];
    match mode {
        Mode::Light => ThemePair { background: hi, foreground: lo },
        Mode::Dark => ThemePair { background: lo, foreground: hi },
    }
}

/// Picks the two extreme centroids of the ordered palette as the theme
/// pair, with the mode deciding which is the background.
pub fn select_pair(ordered: &Vec<PerceptualColor>, mode: Mode) -> (r: ThemePair)
    requires
        ordered@.len() >= 1,
    ensures
        r == spec_select_pair(ordered@, mode),
{
    let hi = ordered[0];
    let lo = ordered[ordered.len() - 1];
    match mode {
        Mode::Light => ThemePair { background: hi, foreground: lo },
        Mode::Dark => ThemePair { background: lo, foreground: hi },
    }
}

/// Law: the light and dark selections return the same two colors with the
/// roles swapped.
pub proof fn lemma_mode_symmetry(s: Seq<PerceptualColor>)
    requires
        s.len() >= 1,
    ensures
        spec_select_pair(s, Mode::Light).background == spec_select_pair(s, Mode::Dark).foreground,
        spec_select_pair(s, Mode::Light).foreground == spec_select_pair(s, Mode::Dark).background,
{
}

/// Law: the ordered palette is in descending chroma order at every adjacent
/// pair.
pub proof fn lemma_ordering_invariant(s: Seq<PerceptualColor>, i: int)
    requires
        0 <= i,
        i + 1 < spec_order(s).len(),
    ensures
        spec_chroma2(spec_order(s)[i]) >= spec_chroma2(spec_order(s)[i + 1]),
{
    lemma_order_sorted(s);
}

/// The sort's output is descending at every pair of positions.
pub proof fn lemma_order_sorted(s: Seq<PerceptualColor>)
    ensures
        sorted_desc(spec_order(s)),
    decreases s.len(),
{
    if s.len() > 0 {
        lemma_order_sorted(s.drop_last());
        lemma_insert_desc_sorted(s.last(), spec_order(s.drop_last()));
    }
}

} // verus!
