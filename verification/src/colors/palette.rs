//! Turning raw backend colors into the sixteen terminal slots (pywal's
//! `adjust()`): sort dark to light, pick accents, derive bright variants,
//! optionally invert for light mode, then enforce readable contrast.
use vstd::prelude::*;
use crate::colors::adjust::{invert_for_light, swapped_for_light};
use crate::colors::types::{sat_den, sat_num, luma, ColorDict, Rgb, Special};
use crate::error::RwalError;
use crate::text::str_eq;

verus! {

broadcast use {vstd::multiset::group_multiset_axioms, vstd::seq_lib::group_to_multiset_ensures};

// ─── sorting dark → light ───────────────────────────────────────────────────

/// Insert `c` into `s` after every entry whose luminance does not exceed its own.
pub open spec fn insert_by_luma(s: Seq<Rgb>, c: Rgb) -> Seq<Rgb>
    decreases s.len(),
{
    if s.len() == 0 {
        seq![c]
    } else if luma(s.last()) <= luma(c) {
        s.push(c)
    } else {
        insert_by_luma(s.drop_last(), c).push(s.last())
    }
}

/// Stable sort by luminance, dark to light: colors of equal luminance keep
/// their input order.
pub open spec fn sort_by_luma(s: Seq<Rgb>) -> Seq<Rgb>
    decreases s.len(),
{
    if s.len() == 0 {
        s
    } else {
        insert_by_luma(sort_by_luma(s.drop_last()), s.last())
    }
}

pub open spec fn luma_sorted(s: Seq<Rgb>) -> bool {
    forall|i: int, j: int| 0 <= i <= j < s.len() ==> luma(#[trigger] s[i]) <= luma(#[trigger] s[j])
}

proof fn lemma_insert_props(s: Seq<Rgb>, c: Rgb)
    requires
        luma_sorted(s),
    ensures
        luma_sorted(insert_by_luma(s, c)),
        insert_by_luma(s, c).to_multiset() == s.to_multiset().insert(c),
        insert_by_luma(s, c).len() == s.len() + 1,
    decreases s.len(),
{
    if s.len() == 0 {
        assert(seq![c] =~= Seq::<Rgb>::empty().push(c));
        assert(Seq::<Rgb>::empty().to_multiset() =~= vstd::multiset::Multiset::empty());
    } else if luma(s.last()) <= luma(c) {
        assert(luma_sorted(s.push(c))) by {
            assert forall|i: int, j: int| 0 <= i <= j < s.push(c).len() implies
                luma(#[trigger] s.push(c)[i]) <= luma(#[trigger] s.push(c)[j]) by {
                if j == s.len() && i < s.len() {
                    assert(luma(s[i]) <= luma(s[s.len() - 1]));
                }
            }
        }
    } else {
        let d = s.drop_last();
        assert(luma_sorted(d));
        lemma_insert_props(d, c);
        let t = insert_by_luma(d, c);
        t.to_multiset_ensures();
        d.to_multiset_ensures();
        assert(s =~= d.push(s.last()));
        assert forall|i: int, j: int| 0 <= i <= j < t.push(s.last()).len() implies
            luma(#[trigger] t.push(s.last())[i]) <= luma(#[trigger] t.push(s.last())[j]) by {
            if j == t.len() && i < t.len() {
                // every element of t is either c or an element of d, all below s.last()
                assert(t.to_multiset().count(t[i]) > 0);
                if t[i] != c {
                    assert(d.to_multiset().count(t[i]) > 0);
                    assert(d.contains(t[i]));
                    let k = choose|k: int| 0 <= k < d.len() && d[k] == t[i];
                    assert(s[k] == d[k]);
                }
            }
        }
        assert(s.to_multiset() =~= d.to_multiset().insert(s.last()));
        assert(t.push(s.last()).to_multiset() =~= s.to_multiset().insert(c));
    }
}

proof fn lemma_sort_props(s: Seq<Rgb>)
    ensures
        luma_sorted(sort_by_luma(s)),
        sort_by_luma(s).to_multiset() == s.to_multiset(),
        sort_by_luma(s).len() == s.len(),
    decreases s.len(),
{
    if s.len() == 0 {
    } else {
        lemma_sort_props(s.drop_last());
        lemma_insert_props(sort_by_luma(s.drop_last()), s.last());
        s.drop_last().to_multiset_ensures();
        assert(s =~= s.drop_last().push(s.last()));
        s.to_multiset_ensures();
    }
}

fn insert_sorted(v: &mut Vec<Rgb>, c: Rgb)
    ensures
        final(v)@ == insert_by_luma(old(v)@, c),
{
    let mut pos = v.len();
    let ghost orig = v@;
    assert(orig.take(orig.len() as int) =~= orig);
    loop
        invariant
            v@ == orig,
            pos <= orig.len(),
            insert_by_luma(orig, c) == insert_by_luma(orig.take(pos as int), c) + orig.skip(pos as int),
        ensures
            pos <= orig.len(),
            insert_by_luma(orig, c) == insert_by_luma(orig.take(pos as int), c) + orig.skip(pos as int),
            pos == 0 || luma(orig[pos - 1]) <= luma(c),
        decreases pos,
    {
        if pos == 0 {
            break;
        }
        if v[pos - 1].luma() <= c.luma() {
            break;
        }
        proof {
            let t = orig.take(pos as int);
            assert(t.drop_last() =~= orig.take(pos - 1));
            assert(t.last() == orig[pos - 1]);
            assert(orig.skip(pos - 1) =~= seq![orig[pos - 1]] + orig.skip(pos as int));
            assert(insert_by_luma(t, c) == insert_by_luma(orig.take(pos - 1), c).push(orig[pos - 1]));
            assert(insert_by_luma(orig.take(pos - 1), c).push(orig[pos - 1]) + orig.skip(pos as int)
                =~= insert_by_luma(orig.take(pos - 1), c) + orig.skip(pos - 1));
        }
        pos = pos - 1;
    }
    proof {
        if pos == 0 {
            assert(orig.take(0) =~= Seq::<Rgb>::empty());
            assert(insert_by_luma(orig.take(0), c) == seq![c]);
        } else {
            let t = orig.take(pos as int);
            assert(t.last() == orig[pos - 1]);
            assert(insert_by_luma(t, c) == t.push(c));
        }
    }
    v.insert(pos, c);
    assert(v@ =~= insert_by_luma(orig, c));
}

/// Sort colors by luminance, dark to light, keeping equal-luminance colors in
/// input order.
pub fn sort_by_luminance(raw: Vec<Rgb>) -> (out: Vec<Rgb>)
    ensures
        out@ == sort_by_luma(raw@),
        luma_sorted(out@),
        out@.to_multiset() == raw@.to_multiset(),
        out@.len() == raw@.len(),
{
    let mut out: Vec<Rgb> = Vec::new();
    let mut i: usize = 0;
    while i < raw.len()
        invariant
            i <= raw@.len(),
            out@ == sort_by_luma(raw@.take(i as int)),
        decreases raw@.len() - i,
    {
        proof {
            let t = raw@.take(i + 1);
            assert(t.drop_last() =~= raw@.take(i as int));
        }
        insert_sorted(&mut out, raw[i]);
        i = i + 1;
    }
    assert(raw@.take(raw@.len() as int) =~= raw@);
    proof { lemma_sort_props(raw@); }
    out
}

// ─── padding and accents ────────────────────────────────────────────────────

/// `s` extended to at least `min_len` entries by repeating its last color.
pub open spec fn padded(s: Seq<Rgb>, min_len: nat) -> Seq<Rgb> {
    if s.len() >= min_len {
        s
    } else {
        s + Seq::new((min_len - s.len()) as nat, |i: int| s.last())
    }
}

/// Pad a color slice to at least `min_len` by repeating the last color.
pub fn pad_to(colors: &[Rgb], min_len: usize) -> (out: Vec<Rgb>)
    requires
        colors@.len() > 0 || min_len == 0,
    ensures
        out@ == padded(colors@, min_len as nat),
{
    let mut out = vstd::slice::slice_to_vec(colors);
    while out.len() < min_len
        invariant
            colors@.len() > 0 || min_len == 0,
            colors@.len() <= out@.len(),
            out@.len() <= min_len || out@.len() == colors@.len(),
            out@ =~= colors@ + Seq::new((out@.len() - colors@.len()) as nat, |i: int| colors@.last()),
        decreases min_len - out.len(),
    {
        let last = out[out.len() - 1];
        proof {
            if out@.len() > colors@.len() {
                assert(out@[out@.len() - 1] == colors@.last());
            }
        }
        out.push(last);
        assert(out@ =~= colors@ + Seq::new((out@.len() - colors@.len()) as nat, |i: int| colors@.last()));
    }
    proof {
        if colors@.len() >= min_len {
            assert(out@ =~= colors@);
        }
    }
    out
}

/// `n` accents spread evenly across the inner range of `sorted` (everything
/// but the darkest and the lightest): accent `i` is inner entry `i * len / n`.
pub open spec fn classic_accents(sorted: Seq<Rgb>, n: nat) -> Seq<Rgb> {
    let inner = sorted.subrange(1, sorted.len() - 1);
    Seq::new(n, |i: int| inner[(i * inner.len()) / (n as int)])
}

fn spread_accents(sorted: &[Rgb], n: usize) -> (out: Vec<Rgb>)
    requires
        sorted@.len() >= 3,
        n * sorted@.len() <= usize::MAX,
    ensures
        out@ == classic_accents(sorted@, n as nat),
{
    let len = sorted.len() - 2;
    let ghost inner = sorted@.subrange(1, sorted@.len() - 1);
    let mut out: Vec<Rgb> = Vec::new();
    let mut i: usize = 0;
    while i < n
        invariant
            i <= n,
            len == inner.len(),
            len + 2 == sorted@.len(),
            inner == sorted@.subrange(1, sorted@.len() - 1),
            n * sorted@.len() <= usize::MAX,
            len >= 1,
            out@ =~= classic_accents(sorted@, n as nat).take(i as int),
        decreases n - i,
    {
        assert(i * len <= n * sorted@.len()) by (nonlinear_arith)
            requires i < n, len <= sorted@.len();
        let idx = (i * len) / n;
        assert(idx < len) by (nonlinear_arith)
            requires idx as int == (i * len) as int / (n as int), i < n, len >= 1;
        let idx = if idx < len - 1 { idx } else { len - 1 };
        out.push(sorted[idx + 1]);
        i = i + 1;
    }
    out
}

/// The accents `pick_accents` may give: the classic spread over the inner
/// range when there is one (three colors or more), else the first color
/// lightened by 10, 20, 30, … percent, each as `tone` answers.
pub open spec fn accents_picked<T: Fn(Tone) -> Rgb>(tone: T, sorted: Seq<Rgb>, n: nat, out: Seq<Rgb>) -> bool {
    &&& out.len() == n
    &&& sorted.len() >= 3 ==> out == classic_accents(sorted, n)
    &&& sorted.len() < 3 ==> forall|i: int|
        0 <= i < n ==> toned(tone, Tone::Lighten(sorted[0], (10 * (i + 1)) as u32), #[trigger] out[i])
}

/// Pick `n` accent colors spread across the middle range of sorted colors
/// (pywal classic). With fewer than three colors there is no middle range,
/// and the accents are the first color lightened in 10 % steps.
pub fn pick_accents<T: Fn(Tone) -> Rgb>(sorted: &[Rgb], n: usize, tone: &T) -> (out: Vec<Rgb>)
    requires
        sorted@.len() >= 1,
        n * sorted@.len() <= usize::MAX,
        sorted@.len() < 3 ==> 10 * n <= u32::MAX,
        forall|t: Tone| call_requires(*tone, (t,)),
    ensures
        accents_picked(*tone, sorted@, n as nat, out@),
{
    if sorted.len() >= 3 {
        return spread_accents(sorted, n);
    }
    let first = sorted[0];
    let mut out: Vec<Rgb> = Vec::new();
    let mut i: usize = 0;
    while i < n
        invariant
            i <= n,
            10 * n <= u32::MAX,
            first == sorted@[0],
            out@.len() == i,
            forall|t: Tone| call_requires(*tone, (t,)),
            forall|j: int| 0 <= j < i ==> toned(*tone, Tone::Lighten(first, (10 * (j + 1)) as u32), #[trigger] out@[j]),
        decreases n - i,
    {
        let percent: u32 = (10 * (i + 1)) as u32;
        let c = tone(Tone::Lighten(first, percent));
        out.push(c);
        i = i + 1;
    }
    out
}

/// Scan for the most saturated color: `c` replaces the current pick when its
/// saturation is strictly above the best seen so far (`bn / bd`).
pub open spec fn vibrant_scan(s: Seq<Rgb>, best: Rgb, bn: int, bd: int) -> Rgb
    decreases s.len(),
{
    if s.len() == 0 {
        best
    } else if sat_num(s[0]) * bd > bn * sat_den(s[0]) {
        vibrant_scan(s.drop_first(), s[0], sat_num(s[0]), sat_den(s[0]))
    } else {
        vibrant_scan(s.drop_first(), best, bn, bd)
    }
}

/// The most saturated of the inner colors (all but the first and the last),
/// the first of equals; the middle color when none has any saturation.
pub open spec fn vibrant_base(sorted: Seq<Rgb>) -> Rgb {
    let inner = if sorted.len() >= 2 { sorted.subrange(1, sorted.len() - 1) } else { Seq::empty() };
    vibrant_scan(inner, sorted[sorted.len() as int / 2], 0, 1)
}

/// Find the most vibrant color of the sorted set, as the primary accent of
/// the adaptive mode. Saturation is compared as exact fractions.
pub fn find_vibrant_base(sorted: &[Rgb]) -> (c: Rgb)
    requires
        sorted@.len() > 0,
    ensures
        c == vibrant_base(sorted@),
{
    let len = sorted.len();
    let mut best = sorted[len / 2];
    let mut bn: u32 = 0;
    let mut bd: u32 = 1;
    let end: usize = if len >= 2 { len - 1 } else { 1 };
    let ghost inner = if len >= 2 { sorted@.subrange(1, len - 1) } else { Seq::<Rgb>::empty() };
    let mut i: usize = 1;
    assert(inner =~= sorted@.subrange(1, end as int));
    while i < end
        invariant
            1 <= i <= end <= len,
            len == sorted@.len(),
            inner == sorted@.subrange(1, end as int),
            bd > 0,
            bn <= 255,
            bd <= 510,
            vibrant_scan(inner, sorted@[len as int / 2], 0, 1) == vibrant_scan(sorted@.subrange(i as int, end as int), best, bn as int, bd as int),
        decreases end - i,
    {
        let (n, d) = sorted[i].saturation();
        let ghost rest = sorted@.subrange(i as int, end as int);
        assert(rest[0] == sorted@[i as int]);
        assert(rest.drop_first() =~= sorted@.subrange(i + 1, end as int));
        assert(n * bd <= 255 * 510) by (nonlinear_arith) requires n <= 255, bd <= 510;
        assert(bn * d <= 255 * 510) by (nonlinear_arith) requires bn <= 255, d <= 510;
        if n * bd > bn * d {
            best = sorted[i];
            bn = n;
            bd = d;
        }
        i = i + 1;
    }
    assert(sorted@.subrange(end as int, end as int) =~= Seq::<Rgb>::empty());
    best
}

/// `a` is at least as saturated as `b` (HSL saturation, compared as exact
/// fractions).
pub open spec fn at_least_as_saturated(a: Rgb, b: Rgb) -> bool {
    sat_num(b) * sat_den(a) <= sat_num(a) * sat_den(b)
}

proof fn lemma_sat_fraction(c: Rgb)
    ensures
        sat_den(c) > 0,
        sat_num(c) >= 0,
{
}

proof fn lemma_frac_lt_le(a: int, da: int, b: int, db: int, c: int, dc: int)
    requires
        da > 0,
        db > 0,
        dc > 0,
        a * db <= b * da,
        b * dc < c * db,
    ensures
        a * dc < c * da,
{
    assert(a * db * dc <= b * da * dc) by (nonlinear_arith)
        requires a * db <= b * da, dc > 0;
    assert(b * dc * da < c * db * da) by (nonlinear_arith)
        requires b * dc < c * db, da > 0;
    assert(a * dc * db < c * da * db) by (nonlinear_arith)
        requires a * db * dc <= b * da * dc, b * dc * da < c * db * da;
    assert(a * dc < c * da) by (nonlinear_arith)
        requires a * dc * db < c * da * db, db > 0;
}

proof fn lemma_vibrant_scan(s: Seq<Rgb>, best: Rgb, bn: int, bd: int)
    requires
        bd > 0,
        bn >= 0,
    ensures
        ({
            let r = vibrant_scan(s, best, bn, bd);
            ||| r == best && forall|i: int| 0 <= i < s.len() ==> sat_num(#[trigger] s[i]) * bd <= bn * sat_den(s[i])
            ||| exists|i: int| 0 <= i < s.len() && #[trigger] s[i] == r && bn * sat_den(r) < sat_num(r) * bd
                && forall|j: int| 0 <= j < s.len() ==> at_least_as_saturated(r, #[trigger] s[j])
        }),
    decreases s.len(),
{
    if s.len() > 0 {
        let c = s[0];
        let t = s.drop_first();
        lemma_sat_fraction(c);
        let r = vibrant_scan(s, best, bn, bd);
        assert forall|j: int| 0 <= j < t.len() implies #[trigger] t[j] == s[j + 1] by {}
        if sat_num(c) * bd > bn * sat_den(c) {
            lemma_vibrant_scan(t, c, sat_num(c), sat_den(c));
            lemma_sat_fraction(r);
            if r == c && forall|i: int| 0 <= i < t.len() ==> sat_num(#[trigger] t[i]) * sat_den(c) <= sat_num(c) * sat_den(t[i]) {
                assert forall|j: int| 0 <= j < s.len() implies at_least_as_saturated(r, #[trigger] s[j]) by {
                    if j > 0 {
                        assert(s[j] == t[j - 1]);
                        lemma_sat_fraction(s[j]);
                    }
                }
                assert(s[0] == r);
            } else {
                let i = choose|i: int| 0 <= i < t.len() && #[trigger] t[i] == r && sat_num(c) * sat_den(r) < sat_num(r) * sat_den(c)
                    && forall|j: int| 0 <= j < t.len() ==> at_least_as_saturated(r, #[trigger] t[j]);
                assert(s[i + 1] == r);
                lemma_frac_lt_le(bn, bd, sat_num(c), sat_den(c), sat_num(r), sat_den(r));
                assert forall|j: int| 0 <= j < s.len() implies at_least_as_saturated(r, #[trigger] s[j]) by {
                    if j > 0 {
                        assert(s[j] == t[j - 1]);
                    }
                }
            }
        } else {
            lemma_vibrant_scan(t, best, bn, bd);
            if r == best && forall|i: int| 0 <= i < t.len() ==> sat_num(#[trigger] t[i]) * bd <= bn * sat_den(t[i]) {
                assert forall|j: int| 0 <= j < s.len() implies sat_num(#[trigger] s[j]) * bd <= bn * sat_den(s[j]) by {
                    if j > 0 {
                        assert(s[j] == t[j - 1]);
                    }
                }
            } else {
                let i = choose|i: int| 0 <= i < t.len() && #[trigger] t[i] == r && bn * sat_den(r) < sat_num(r) * bd
                    && forall|j: int| 0 <= j < t.len() ==> at_least_as_saturated(r, #[trigger] t[j]);
                assert(s[i + 1] == r);
                lemma_sat_fraction(r);
                assert forall|j: int| 0 <= j < s.len() implies at_least_as_saturated(r, #[trigger] s[j]) by {
                    if j > 0 {
                        assert(s[j] == t[j - 1]);
                    } else {
                        assert(sat_num(c) * bd <= bn * sat_den(c));
                        lemma_frac_lt_le(sat_num(c), sat_den(c), bn, bd, sat_num(r), sat_den(r));
                    }
                }
            }
        }
    }
}

/// The adaptive mode's base is the most saturated of the inner colors (all
/// but the darkest and the lightest): at least as saturated as each of them,
/// and one of them unless all are gray, in which case it is the middle color.
pub proof fn lemma_vibrant_base_is_most_saturated(sorted: Seq<Rgb>)
    requires
        sorted.len() > 0,
    ensures
        forall|i: int| 1 <= i < sorted.len() - 1 ==> at_least_as_saturated(vibrant_base(sorted), #[trigger] sorted[i]),
        (exists|i: int| 1 <= i < sorted.len() - 1 && sat_num(#[trigger] sorted[i]) > 0)
            ==> exists|i: int| 1 <= i < sorted.len() - 1 && #[trigger] sorted[i] == vibrant_base(sorted),
        (forall|i: int| 1 <= i < sorted.len() - 1 ==> sat_num(#[trigger] sorted[i]) == 0)
            ==> vibrant_base(sorted) == sorted[sorted.len() as int / 2],
{
    let inner = if sorted.len() >= 2 { sorted.subrange(1, sorted.len() - 1) } else { Seq::<Rgb>::empty() };
    let mid = sorted[sorted.len() as int / 2];
    let r = vibrant_base(sorted);
    lemma_vibrant_scan(inner, mid, 0, 1);
    lemma_sat_fraction(r);
    assert forall|i: int| 1 <= i < sorted.len() - 1 implies #[trigger] sorted[i] == inner[i - 1] by {}
    if r == mid && forall|i: int| 0 <= i < inner.len() ==> sat_num(#[trigger] inner[i]) * 1 <= 0 * sat_den(inner[i]) {
        assert forall|i: int| 1 <= i < sorted.len() - 1 implies at_least_as_saturated(r, #[trigger] sorted[i]) by {
            assert(sat_num(inner[i - 1]) <= 0);
            lemma_sat_fraction(sorted[i]);
        }
        if exists|i: int| 1 <= i < sorted.len() - 1 && sat_num(#[trigger] sorted[i]) > 0 {
            let i = choose|i: int| 1 <= i < sorted.len() - 1 && sat_num(#[trigger] sorted[i]) > 0;
            assert(sat_num(inner[i - 1]) <= 0);
        }
    } else {
        let i = choose|i: int| 0 <= i < inner.len() && #[trigger] inner[i] == r && 0 * sat_den(r) < sat_num(r) * 1
            && forall|j: int| 0 <= j < inner.len() ==> at_least_as_saturated(r, #[trigger] inner[j]);
        assert(sorted[i + 1] == r);
        assert forall|q: int| 1 <= q < sorted.len() - 1 implies at_least_as_saturated(r, #[trigger] sorted[q]) by {
            assert(inner[q - 1] == sorted[q]);
        }
        if forall|q: int| 1 <= q < sorted.len() - 1 ==> sat_num(#[trigger] sorted[q]) == 0 {
            assert(sat_num(sorted[i + 1]) == 0);
        }
    }
}

// ─── modes ──────────────────────────────────────────────────────────────────

/// Palette generation modes, selected by name.
#[derive(Debug, Clone, Copy, PartialEq, Eq, Structural)]
pub enum Mode {
    /// "classic" or "balanced" (and any unknown name): standard pywal accents.
    Classic,
    /// "adaptive" or "dynamic": one vibrant base spread harmonically around the hue wheel.
    Adaptive,
    /// "vibrant" or "neon": the classic accents pushed by the image's luminance.
    Vibrant,
    /// "pastel" or "soft": desaturated, lifted pastel accents.
    Pastel,
}

/// The mode a name selects: each mode goes by two names ("adaptive" or
/// "dynamic", "vibrant" or "neon", "pastel" or "soft"); anything else,
/// "classic" and "balanced" among them, is the classic mode.
pub open spec fn mode_of(name: Seq<char>) -> Mode {
    if name == "dynamic"@ || name == "adaptive"@ {
        Mode::Adaptive
    } else if name == "neon"@ || name == "vibrant"@ {
        Mode::Vibrant
    } else if name == "soft"@ || name == "pastel"@ {
        Mode::Pastel
    } else {
        Mode::Classic
    }
}

/// The mode a name selects; unknown names fall back to the classic mode.
pub fn mode_from_name(name: &str) -> (m: Mode)
    ensures
        m == mode_of(name@),
{
    if str_eq(name, "dynamic") || str_eq(name, "adaptive") {
        Mode::Adaptive
    } else if str_eq(name, "neon") || str_eq(name, "vibrant") {
        Mode::Vibrant
    } else if str_eq(name, "soft") || str_eq(name, "pastel") {
        Mode::Pastel
    } else {
        Mode::Classic
    }
}

/// Unified trait for palette generation modes: accents from colors sorted dark
/// to light.
pub trait ColorMode {
    /// The floating-point color math a mode needs is done by `tone`.
    fn generate<T: Fn(Tone) -> Rgb>(&self, sorted: &[Rgb], tone: &T) -> Vec<Rgb>
        requires
            sorted@.len() >= 1,
            6 * sorted@.len() <= usize::MAX,
            forall|t: Tone| call_requires(*tone, (t,)),
    ;
}

/// Classic strategy: matches standard pywal behavior.
pub struct ClassicMode;

impl ColorMode for ClassicMode {
    fn generate<T: Fn(Tone) -> Rgb>(&self, sorted: &[Rgb], tone: &T) -> (out: Vec<Rgb>)
        ensures
            accents_picked(*tone, sorted@, 6, out@),
    {
        pick_accents(sorted, 6, tone)
    }
}

// ─── building the scheme ────────────────────────────────────────────────────

/// A color computation done in floating point outside this library, on HSL
/// lightness or WCAG contrast.
#[derive(Debug, Clone, Copy, PartialEq, Eq, Structural)]
pub enum Tone {
    /// `color` darkened by `percent` of HSL lightness.
    Darken(Rgb, u32),
    /// `color` lightened by `percent` of HSL lightness.
    Lighten(Rgb, u32),
    /// `foreground` adjusted until it reaches a 4.5:1 contrast ratio against `background`.
    Legible { background: Rgb, foreground: Rgb },
}

/// `out` is an answer `tone` may give to `request`.
pub open spec fn toned<T: Fn(Tone) -> Rgb>(tone: T, request: Tone, out: Rgb) -> bool {
    call_ensures(tone, (request,), out)
}

/// The sixteen slots before contrast enforcement: darkest, six accents,
/// near-lightest, darkened darkest, six brightened accents, lightest.
pub open spec fn base_slots(sorted: Seq<Rgb>, accents: Seq<Rgb>, color8: Rgb, bright: Seq<Rgb>) -> Seq<Rgb> {
    Seq::new(
        16,
        |i: int|
            if i == 0 {
                sorted[0]
            } else if i <= 6 {
                accents[i - 1]
            } else if i == 7 {
                sorted[sorted.len() - 2]
            } else if i == 8 {
                color8
            } else if i <= 14 {
                bright[i - 9]
            } else {
                sorted[sorted.len() - 1]
            },
    )
}

/// `pre` arranged for the requested mode.
pub open spec fn arranged(pre: Seq<Rgb>, light_mode: bool) -> Seq<Rgb> {
    if light_mode { swapped_for_light(pre) } else { pre }
}

/// Every slot but color0 and color8 made legible against color0; those two stay.
pub open spec fn contrast_enforced<T: Fn(Tone) -> Rgb>(tone: T, pre: Seq<Rgb>, fin: Seq<Rgb>) -> bool {
    &&& fin.len() == 16
    &&& fin[0] == pre[0]
    &&& fin[8] == pre[8]
    &&& forall|i: int|
        0 < i < 16 && i != 8 ==> toned(tone, Tone::Legible { background: pre[0], foreground: pre[i] }, #[trigger] fin[i])
}

/// Accents a mode contributes for `sorted`: the classic spread, or the first
/// six colors the external mode generator answers.
pub open spec fn mode_accents_ok<A: Fn(Mode, Vec<Rgb>) -> Vec<Rgb>>(mode: Mode, sorted: Seq<Rgb>, gen: A, acc: Seq<Rgb>) -> bool {
    &&& acc.len() == 6
    &&& if mode == Mode::Classic {
        acc == classic_accents(sorted, 6)
    } else {
        exists|v: Vec<Rgb>, out: Vec<Rgb>|
            v@ == sorted && #[trigger] call_ensures(gen, (mode, v), out) && out@.take(6) == acc
    }
}

/// The raw colors sorted dark to light and padded to eight.
pub open spec fn sorted_palette(raw: Seq<Rgb>) -> Seq<Rgb> {
    padded(sort_by_luma(raw), 8)
}

/// One run of the slot pipeline: accents, darkened color0, brightened
/// accents, arrangement, contrast, yielding `colors`.
pub open spec fn slot_steps<T: Fn(Tone) -> Rgb, A: Fn(Mode, Vec<Rgb>) -> Vec<Rgb>>(
    raw: Seq<Rgb>,
    light_mode: bool,
    mode: Mode,
    tone: T,
    gen: A,
    acc: Seq<Rgb>,
    color8: Rgb,
    bright: Seq<Rgb>,
    colors: Seq<Rgb>,
) -> bool {
    let s = sorted_palette(raw);
    &&& mode_accents_ok(mode, s, gen, acc)
    &&& toned(tone, Tone::Darken(s[0], 20), color8)
    &&& bright.len() == 6
    &&& forall|i: int| 0 <= i < 6 ==> toned(tone, Tone::Lighten(acc[i], 20), #[trigger] bright[i])
    &&& contrast_enforced(tone, arranged(base_slots(s, acc, color8, bright), light_mode), colors)
}

/// What `build` returns: the inputs carried over, color0 and (in light mode)
/// color8 pinned by the sort, special roles taken from color0 and color15, and
/// the sixteen slots produced by one run of the slot pipeline.
pub open spec fn built_from<T: Fn(Tone) -> Rgb, A: Fn(Mode, Vec<Rgb>) -> Vec<Rgb>>(
    raw: Seq<Rgb>,
    wallpaper: String,
    alpha: u8,
    light_mode: bool,
    mode_name: Seq<char>,
    tone: T,
    gen: A,
    d: ColorDict,
) -> bool {
    let s = sorted_palette(raw);
    &&& d.wallpaper == wallpaper
    &&& d.alpha == alpha
    &&& d.special == (Special { background: d.colors@[0], foreground: d.colors@[15], cursor: d.colors@[15] })
    &&& d.colors@[0] == (if light_mode { s[s.len() - 1] } else { s[0] })
    &&& light_mode ==> d.colors@[8] == s[s.len() - 2]
    &&& exists|acc: Seq<Rgb>, color8: Rgb, bright: Seq<Rgb>|
        #[trigger] slot_steps(raw, light_mode, mode_of(mode_name), tone, gen, acc, color8, bright, d.colors@)
}

/// The background of a dark scheme is the darkest input color, that of a
/// light scheme the lightest (by YIQ luminance); either way it is one of the
/// input colors.
pub proof fn lemma_background_is_extreme<T: Fn(Tone) -> Rgb, A: Fn(Mode, Vec<Rgb>) -> Vec<Rgb>>(
    raw: Seq<Rgb>,
    wallpaper: String,
    alpha: u8,
    light_mode: bool,
    mode_name: Seq<char>,
    tone: T,
    gen: A,
    d: ColorDict,
    c: Rgb,
)
    requires
        built_from(raw, wallpaper, alpha, light_mode, mode_name, tone, gen, d),
        raw.contains(c),
    ensures
        !light_mode ==> luma(d.colors@[0]) <= luma(c),
        light_mode ==> luma(d.colors@[0]) >= luma(c),
        raw.contains(d.colors@[0]),
{
    let t = sort_by_luma(raw);
    lemma_sort_props(raw);
    let k = choose|k: int| 0 <= k < raw.len() && raw[k] == c;
    assert(raw.to_multiset().count(c) > 0);
    assert(t.to_multiset().count(c) > 0);
    assert(t.contains(c));
    let j = choose|j: int| 0 <= j < t.len() && t[j] == c;
    let s = sorted_palette(raw);
    assert(s[0] == t[0]);
    assert(s[s.len() - 1] == t[t.len() - 1]);
    assert(luma(t[0]) <= luma(t[j]));
    assert(luma(t[j]) <= luma(t[t.len() - 1]));
    raw.to_multiset_ensures();
    t.to_multiset_ensures();
    assert(t.contains(d.colors@[0]));
    assert(t.to_multiset().count(d.colors@[0]) > 0);
    assert(raw.to_multiset().count(d.colors@[0]) > 0);
}

/// In a dark scheme, color8 (bright black) is the background darkened by
/// twenty percent.
pub proof fn lemma_dark_color8_darkens_background<T: Fn(Tone) -> Rgb, A: Fn(Mode, Vec<Rgb>) -> Vec<Rgb>>(
    raw: Seq<Rgb>,
    wallpaper: String,
    alpha: u8,
    mode_name: Seq<char>,
    tone: T,
    gen: A,
    d: ColorDict,
)
    requires
        built_from(raw, wallpaper, alpha, false, mode_name, tone, gen, d),
    ensures
        toned(tone, Tone::Darken(d.colors@[0], 20), d.colors@[8]),
{
    let s = sorted_palette(raw);
    let (acc, c8, br) = choose|acc: Seq<Rgb>, color8: Rgb, bright: Seq<Rgb>|
        #[trigger] slot_steps(raw, false, mode_of(mode_name), tone, gen, acc, color8, bright, d.colors@);
    let pre = arranged(base_slots(s, acc, c8, br), false);
    assert(pre[0] == s[0]);
    assert(pre[8] == c8);
}

/// Light mode trades the roles of the extremes: the light scheme's
/// background is the lightest input color, which the dark scheme made
/// legible as its foreground (color15) against its background, and the
/// light scheme's foreground is the darkest color made legible against the
/// light background.
pub proof fn lemma_light_swaps_roles<T: Fn(Tone) -> Rgb, A: Fn(Mode, Vec<Rgb>) -> Vec<Rgb>>(
    raw: Seq<Rgb>,
    wallpaper: String,
    alpha: u8,
    mode_name: Seq<char>,
    tone: T,
    gen: A,
    dark: ColorDict,
    light: ColorDict,
)
    requires
        built_from(raw, wallpaper, alpha, false, mode_name, tone, gen, dark),
        built_from(raw, wallpaper, alpha, true, mode_name, tone, gen, light),
    ensures
        toned(tone, Tone::Legible { background: dark.colors@[0], foreground: light.colors@[0] }, dark.colors@[15]),
        toned(tone, Tone::Legible { background: light.colors@[0], foreground: dark.colors@[0] }, light.colors@[15]),
{
    let s = sorted_palette(raw);
    let (acc_d, c8_d, br_d) = choose|acc: Seq<Rgb>, color8: Rgb, bright: Seq<Rgb>|
        #[trigger] slot_steps(raw, false, mode_of(mode_name), tone, gen, acc, color8, bright, dark.colors@);
    let (acc_l, c8_l, br_l) = choose|acc: Seq<Rgb>, color8: Rgb, bright: Seq<Rgb>|
        #[trigger] slot_steps(raw, true, mode_of(mode_name), tone, gen, acc, color8, bright, light.colors@);
    let pre_d = arranged(base_slots(s, acc_d, c8_d, br_d), false);
    let pre_l = arranged(base_slots(s, acc_l, c8_l, br_l), true);
    assert(pre_d[15] == s[s.len() - 1]);
    assert(pre_l[15] == s[0]);
    assert(toned(tone, Tone::Legible { background: pre_d[0], foreground: pre_d[15] }, dark.colors@[15]));
    assert(toned(tone, Tone::Legible { background: pre_l[0], foreground: pre_l[15] }, light.colors@[15]));
}

/// Each mode's two names build the same schemes: "adaptive" and "dynamic",
/// "vibrant" and "neon", "pastel" and "soft", "classic" and "balanced".
pub proof fn lemma_mode_names_agree<T: Fn(Tone) -> Rgb, A: Fn(Mode, Vec<Rgb>) -> Vec<Rgb>>(
    raw: Seq<Rgb>,
    wallpaper: String,
    alpha: u8,
    light_mode: bool,
    tone: T,
    gen: A,
    d: ColorDict,
)
    ensures
        built_from(raw, wallpaper, alpha, light_mode, "adaptive"@, tone, gen, d)
            == built_from(raw, wallpaper, alpha, light_mode, "dynamic"@, tone, gen, d),
        built_from(raw, wallpaper, alpha, light_mode, "vibrant"@, tone, gen, d)
            == built_from(raw, wallpaper, alpha, light_mode, "neon"@, tone, gen, d),
        built_from(raw, wallpaper, alpha, light_mode, "pastel"@, tone, gen, d)
            == built_from(raw, wallpaper, alpha, light_mode, "soft"@, tone, gen, d),
        built_from(raw, wallpaper, alpha, light_mode, "classic"@, tone, gen, d)
            == built_from(raw, wallpaper, alpha, light_mode, "balanced"@, tone, gen, d),
{
    reveal_strlit("adaptive");
    reveal_strlit("dynamic");
    reveal_strlit("vibrant");
    reveal_strlit("neon");
    reveal_strlit("pastel");
    reveal_strlit("soft");
    reveal_strlit("classic");
    reveal_strlit("balanced");
    assert("vibrant"@[0] != "dynamic"@[0]);
    assert("soft"@[0] != "neon"@[0]);
    assert("classic"@[0] != "dynamic"@[0] && "classic"@[0] != "vibrant"@[0]);
    assert("balanced"@[0] != "adaptive"@[0]);
    assert(mode_of("adaptive"@) == mode_of("dynamic"@));
    assert(mode_of("vibrant"@) == mode_of("neon"@));
    assert(mode_of("pastel"@) == mode_of("soft"@));
    assert(mode_of("classic"@) == mode_of("balanced"@));
}

/// `tone` gives one answer to each request.
pub open spec fn tone_is_function<T: Fn(Tone) -> Rgb>(tone: T) -> bool {
    forall|t: Tone, a: Rgb, b: Rgb| toned(tone, t, a) && toned(tone, t, b) ==> a == b
}

/// `gen` gives one list of accents to each mode and list of colors.
pub open spec fn accents_are_function<A: Fn(Mode, Vec<Rgb>) -> Vec<Rgb>>(gen: A) -> bool {
    forall|m: Mode, v1: Vec<Rgb>, v2: Vec<Rgb>, o1: Vec<Rgb>, o2: Vec<Rgb>|
        v1@ == v2@ && #[trigger] call_ensures(gen, (m, v1), o1) && #[trigger] call_ensures(gen, (m, v2), o2)
            ==> o1@ == o2@
}

/// With callbacks that answer each request one way, two schemes built from
/// the same inputs under names that select the same mode are the same
/// scheme.
pub proof fn lemma_same_mode_same_scheme<T: Fn(Tone) -> Rgb, A: Fn(Mode, Vec<Rgb>) -> Vec<Rgb>>(
    raw: Seq<Rgb>,
    wallpaper: String,
    alpha: u8,
    light_mode: bool,
    name1: Seq<char>,
    name2: Seq<char>,
    tone: T,
    gen: A,
    d1: ColorDict,
    d2: ColorDict,
)
    requires
        tone_is_function(tone),
        accents_are_function(gen),
        mode_of(name1) == mode_of(name2),
        built_from(raw, wallpaper, alpha, light_mode, name1, tone, gen, d1),
        built_from(raw, wallpaper, alpha, light_mode, name2, tone, gen, d2),
    ensures
        d1 == d2,
{
    let mode = mode_of(name1);
    let s = sorted_palette(raw);
    let (acc1, c81, br1) = choose|acc: Seq<Rgb>, color8: Rgb, bright: Seq<Rgb>|
        #[trigger] slot_steps(raw, light_mode, mode_of(name1), tone, gen, acc, color8, bright, d1.colors@);
    let (acc2, c82, br2) = choose|acc: Seq<Rgb>, color8: Rgb, bright: Seq<Rgb>|
        #[trigger] slot_steps(raw, light_mode, mode_of(name2), tone, gen, acc, color8, bright, d2.colors@);
    if mode != Mode::Classic {
        let (v1, o1) = choose|v: Vec<Rgb>, out: Vec<Rgb>|
            v@ == s && #[trigger] call_ensures(gen, (mode, v), out) && out@.take(6) == acc1;
        let (v2, o2) = choose|v: Vec<Rgb>, out: Vec<Rgb>|
            v@ == s && #[trigger] call_ensures(gen, (mode, v), out) && out@.take(6) == acc2;
        assert(o1@ == o2@);
    }
    assert(acc1 == acc2);
    assert(c81 == c82);
    assert forall|i: int| 0 <= i < 6 implies br1[i] == br2[i] by {
        assert(toned(tone, Tone::Lighten(acc1[i], 20), br1[i]));
        assert(toned(tone, Tone::Lighten(acc2[i], 20), br2[i]));
    }
    assert(br1 =~= br2);
    let pre = arranged(base_slots(s, acc1, c81, br1), light_mode);
    assert forall|i: int| 0 <= i < 16 implies d1.colors@[i] == d2.colors@[i] by {
        if i != 0 && i != 8 {
            assert(toned(tone, Tone::Legible { background: pre[0], foreground: pre[i] }, d1.colors@[i]));
            assert(toned(tone, Tone::Legible { background: pre[0], foreground: pre[i] }, d2.colors@[i]));
        }
    }
    assert(d1.colors =~= d2.colors);
}

/// With callbacks that answer each request one way, each mode's two names
/// build the same scheme: "adaptive" and "dynamic", "vibrant" and "neon",
/// "pastel" and "soft", "classic" and "balanced".
pub proof fn lemma_mode_aliases_same_scheme<T: Fn(Tone) -> Rgb, A: Fn(Mode, Vec<Rgb>) -> Vec<Rgb>>(
    raw: Seq<Rgb>,
    wallpaper: String,
    alpha: u8,
    light_mode: bool,
    tone: T,
    gen: A,
    d1: ColorDict,
    d2: ColorDict,
)
    requires
        tone_is_function(tone),
        accents_are_function(gen),
    ensures
        built_from(raw, wallpaper, alpha, light_mode, "adaptive"@, tone, gen, d1)
            && built_from(raw, wallpaper, alpha, light_mode, "dynamic"@, tone, gen, d2) ==> d1 == d2,
        built_from(raw, wallpaper, alpha, light_mode, "vibrant"@, tone, gen, d1)
            && built_from(raw, wallpaper, alpha, light_mode, "neon"@, tone, gen, d2) ==> d1 == d2,
        built_from(raw, wallpaper, alpha, light_mode, "pastel"@, tone, gen, d1)
            && built_from(raw, wallpaper, alpha, light_mode, "soft"@, tone, gen, d2) ==> d1 == d2,
        built_from(raw, wallpaper, alpha, light_mode, "classic"@, tone, gen, d1)
            && built_from(raw, wallpaper, alpha, light_mode, "balanced"@, tone, gen, d2) ==> d1 == d2,
{
    lemma_mode_names_agree(raw, wallpaper, alpha, light_mode, tone, gen, d2);
    if built_from(raw, wallpaper, alpha, light_mode, "adaptive"@, tone, gen, d1)
        && built_from(raw, wallpaper, alpha, light_mode, "dynamic"@, tone, gen, d2) {
        lemma_same_mode_same_scheme(raw, wallpaper, alpha, light_mode, "adaptive"@, "adaptive"@, tone, gen, d1, d2);
    }
    if built_from(raw, wallpaper, alpha, light_mode, "vibrant"@, tone, gen, d1)
        && built_from(raw, wallpaper, alpha, light_mode, "neon"@, tone, gen, d2) {
        lemma_same_mode_same_scheme(raw, wallpaper, alpha, light_mode, "vibrant"@, "vibrant"@, tone, gen, d1, d2);
    }
    if built_from(raw, wallpaper, alpha, light_mode, "pastel"@, tone, gen, d1)
        && built_from(raw, wallpaper, alpha, light_mode, "soft"@, tone, gen, d2) {
        lemma_same_mode_same_scheme(raw, wallpaper, alpha, light_mode, "pastel"@, "pastel"@, tone, gen, d1, d2);
    }
    if built_from(raw, wallpaper, alpha, light_mode, "classic"@, tone, gen, d1)
        && built_from(raw, wallpaper, alpha, light_mode, "balanced"@, tone, gen, d2) {
        lemma_same_mode_same_scheme(raw, wallpaper, alpha, light_mode, "classic"@, "classic"@, tone, gen, d1, d2);
    }
}

fn copy_colors(v: &Vec<Rgb>) -> (out: Vec<Rgb>)
    ensures
        out@ == v@,
{
    vstd::slice::slice_to_vec(v.as_slice())
}

/// Build a full `ColorDict` from raw backend colors.
///
/// Slot assignments (pywal's adjust() logic):
///   color0       = darkest (background)
///   color1-6     = 6 accent colors
///   color7       = near-lightest (foreground)
///   color8       = color0 darkened 20% (bright black)
///   color9-14    = color1-6 lightened 20% (bright accents)
///   color15      = lightest (bright white)
/// then light mode swaps color0/color15 and color7/color8, and every slot but
/// color0 and color8 is made readable (WCAG 4.5:1) against color0.
/// special.background = color0, special.foreground = special.cursor = color15.
///
/// The floating-point color math is done by `tone`; the non-classic modes'
/// accents by `mode_accents`.
pub fn build<T, A>(
    raw: Vec<Rgb>,
    wallpaper: String,
    alpha: u8,
    light_mode: bool,
    mode_name: &str,
    tone: T,
    mode_accents: A,
) -> (r: Result<ColorDict, RwalError>) where T: Fn(Tone) -> Rgb, A: Fn(Mode, Vec<Rgb>) -> Vec<Rgb>
    requires
        raw@.len() <= usize::MAX / 8,
        forall|t: Tone| call_requires(tone, (t,)),
        forall|m: Mode, v: Vec<Rgb>| call_requires(mode_accents, (m, v)),
        forall|m: Mode, v: Vec<Rgb>, out: Vec<Rgb>| call_ensures(mode_accents, (m, v), out) ==> out@.len() >= 6,
    ensures
        raw@.len() == 0 <==> r == Err::<ColorDict, RwalError>(RwalError::NoColorsExtracted),
        raw@.len() > 0 ==> r is Ok,
        r is Ok ==> built_from(raw@, wallpaper, alpha, light_mode, mode_name@, tone, mode_accents, r->Ok_0),
{
    if raw.len() == 0 {
        return Err(RwalError::NoColorsExtracted);
    }
    let ghost raw_view = raw@;
    let ghost w = wallpaper;
    let sorted0 = sort_by_luminance(raw);
    let sorted = pad_to(sorted0.as_slice(), 8);
    let ghost s = sorted@;
    assert(s == sorted_palette(raw_view));
    let n = sorted.len();
    assert(n >= 8);
    let color0 = sorted[0];
    let color7 = sorted[n - 2];
    let color15 = sorted[n - 1];
    let color8 = tone(Tone::Darken(color0, 20));

    let mode = mode_from_name(mode_name);
    let accents: Vec<Rgb> = match mode {
        Mode::Classic => ClassicMode.generate(sorted.as_slice(), &tone),
        _ => mode_accents(mode, copy_colors(&sorted)),
    };
    assert(accents@.len() >= 6);
    let ghost acc = accents@.take(6);
    proof {
        if mode == Mode::Classic {
            assert(acc =~= accents@);
        }
    }
    assert(mode_accents_ok(mode, s, mode_accents, acc));

    let mut bright: Vec<Rgb> = Vec::new();
    let mut i: usize = 0;
    while i < 6
        invariant
            i <= 6,
            accents@.len() >= 6,
            acc == accents@.take(6),
            bright@.len() == i,
            forall|t: Tone| call_requires(tone, (t,)),
            forall|j: int| 0 <= j < i ==> toned(tone, Tone::Lighten(acc[j], 20), #[trigger] bright@[j]),
        decreases 6 - i,
    {
        let b = tone(Tone::Lighten(accents[i], 20));
        bright.push(b);
        i = i + 1;
    }

    let mut colors: [Rgb; 16] = [
        color0, accents[0], accents[1], accents[2], accents[3], accents[4], accents[5], color7,
        color8, bright[0], bright[1], bright[2], bright[3], bright[4], bright[5], color15,
    ];
    assert(colors@ =~= base_slots(s, acc, color8, bright@));
    if light_mode {
        colors = invert_for_light(&colors);
    }
    let ghost pre = colors@;
    assert(pre == arranged(base_slots(s, acc, color8, bright@), light_mode));

    let bg = colors[0];
    colors[15] = tone(Tone::Legible { background: bg, foreground: colors[15] });
    colors[7] = tone(Tone::Legible { background: bg, foreground: colors[7] });
    let mut k: usize = 1;
    while k <= 6
        invariant
            1 <= k <= 7,
            bg == pre[0],
            pre.len() == 16,
            colors@.len() == 16,
            colors@[0] == pre[0],
            colors@[8] == pre[8],
            forall|t: Tone| call_requires(tone, (t,)),
            forall|j: int| (j == 7 || j == 15 || (1 <= j < k) || (9 <= j < k + 8)) ==>
                toned(tone, Tone::Legible { background: pre[0], foreground: pre[j] }, #[trigger] colors@[j]),
            forall|j: int| k <= j <= 6 || k + 8 <= j <= 14 ==> #[trigger] colors@[j] == pre[j],
        decreases 7 - k,
    {
        colors[k] = tone(Tone::Legible { background: bg, foreground: colors[k] });
        colors[k + 8] = tone(Tone::Legible { background: bg, foreground: colors[k + 8] });
        k = k + 1;
    }
    assert(contrast_enforced(tone, pre, colors@));
    assert(slot_steps(raw_view, light_mode, mode, tone, mode_accents, acc, color8, bright@, colors@));

    let special = Special { background: colors[0], foreground: colors[15], cursor: colors[15] };
    let d = ColorDict { wallpaper, alpha, special, colors };
    assert(d.colors@ == colors@);
    assert(d.wallpaper == w);
    assert(raw_view == raw@);
    assert(d.colors@[0] == (if light_mode { s[s.len() - 1] } else { s[0] }));
    assert(light_mode ==> d.colors@[8] == s[s.len() - 2]);
    assert(d.special == (Special { background: d.colors@[0], foreground: d.colors@[15], cursor: d.colors@[15] }));
    assert(slot_steps(raw_view, light_mode, mode_of(mode_name@), tone, mode_accents, acc, color8, bright@, d.colors@));
    assert(built_from(raw_view, w, alpha, light_mode, mode_name@, tone, mode_accents, d));
    Ok(d)
}

} // verus!
