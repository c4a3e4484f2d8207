//! Median-cut extraction: split the pixel set along its widest channel until
//! the requested number of buckets exists, then average each bucket.
use vstd::prelude::*;
use crate::colors::types::Rgb;
use crate::error::RwalError;

verus! {

/// Pixel sets this library handles: at most 2^40, far beyond any image
/// sample, so that running sums of channels and distances fit in 64 bits.
pub open spec fn pixel_count_ok(n: nat) -> bool {
    n <= 0x100_0000_0000
}

/// Channel `ch` of a color: 0 red, 1 green, otherwise blue.
pub open spec fn channel(c: Rgb, ch: u8) -> u8 {
    if ch == 0 {
        c.r
    } else if ch == 1 {
        c.g
    } else {
        c.b
    }
}

/// Read one channel of a color.
pub fn channel_value(c: &Rgb, ch: u8) -> (v: u8)
    ensures
        v == channel(*c, ch),
{
    if ch == 0 {
        c.r
    } else if ch == 1 {
        c.g
    } else {
        c.b
    }
}

/// What `sort_unstable_by_key` makes of `pixels` when keyed by channel `ch`.
pub uninterp spec fn unstable_sorted_by_channel(pixels: Seq<Rgb>, ch: u8) -> Seq<Rgb>;

/// Sorts `pixels` in place with std's `<[T]>::sort_unstable_by_key`, keyed by one
/// channel. The std documentation promises the slice ends up a reordering of
/// the old one in nondecreasing key order; which of two equal keys comes first
/// is left open there, so the exact arrangement is named, not stated.
#[verifier::external_body]
fn sort_unstable_by_channel(pixels: &mut Vec<Rgb>, ch: u8)
    ensures
        final(pixels)@ == unstable_sorted_by_channel(old(pixels)@, ch),
        final(pixels)@.to_multiset() == old(pixels)@.to_multiset(),
        forall|i: int, j: int|
            0 <= i <= j < final(pixels)@.len() ==> channel(#[trigger] final(pixels)@[i], ch)
                <= channel(#[trigger] final(pixels)@[j], ch),
{
    pixels.sort_unstable_by_key(|p| channel_value(p, ch));
}

/// Largest value of channel `ch` in a nonempty sequence.
pub open spec fn max_channel(s: Seq<Rgb>, ch: u8) -> u8
    decreases s.len(),
{
    if s.len() <= 1 {
        if s.len() == 1 { channel(s[0], ch) } else { 0 }
    } else {
        let m = max_channel(s.drop_last(), ch);
        let x = channel(s.last(), ch);
        if x > m { x } else { m }
    }
}

/// Smallest value of channel `ch` in a nonempty sequence.
pub open spec fn min_channel(s: Seq<Rgb>, ch: u8) -> u8
    decreases s.len(),
{
    if s.len() <= 1 {
        if s.len() == 1 { channel(s[0], ch) } else { 255 }
    } else {
        let m = min_channel(s.drop_last(), ch);
        let x = channel(s.last(), ch);
        if x < m { x } else { m }
    }
}

/// Spread (max - min) of channel `ch`.
pub open spec fn channel_range(s: Seq<Rgb>, ch: u8) -> u8 {
    (max_channel(s, ch) - min_channel(s, ch)) as u8
}

proof fn lemma_min_le_max(s: Seq<Rgb>, ch: u8)
    requires
        s.len() > 0,
    ensures
        min_channel(s, ch) <= max_channel(s, ch),
    decreases s.len(),
{
    if s.len() > 1 {
        lemma_min_le_max(s.drop_last(), ch);
    }
}

/// The channel a bucket is split along: the widest, preferring red, then green.
pub open spec fn widest_channel(s: Seq<Rgb>) -> u8 {
    let r = channel_range(s, 0);
    let g = channel_range(s, 1);
    let b = channel_range(s, 2);
    if r >= g && r >= b {
        0
    } else if g >= r && g >= b {
        1
    } else {
        2
    }
}

pub open spec fn sum_channel(s: Seq<Rgb>, ch: u8) -> nat
    decreases s.len(),
{
    if s.len() == 0 {
        0
    } else {
        sum_channel(s.drop_last(), ch) + channel(s.last(), ch) as nat
    }
}

proof fn lemma_sum_bound(s: Seq<Rgb>, ch: u8)
    ensures
        sum_channel(s, ch) <= 255 * s.len(),
    decreases s.len(),
{
    if s.len() > 0 {
        lemma_sum_bound(s.drop_last(), ch);
    }
}

/// Mean color of a nonempty bucket, each channel rounded down.
pub open spec fn mean_color(s: Seq<Rgb>) -> Rgb {
    Rgb {
        r: (sum_channel(s, 0) / s.len()) as u8,
        g: (sum_channel(s, 1) / s.len()) as u8,
        b: (sum_channel(s, 2) / s.len()) as u8,
    }
}

/// The colors a median cut of `pixels` to `depth` levels produces, bucket by bucket.
pub open spec fn cut(pixels: Seq<Rgb>, depth: nat) -> Seq<Rgb>
    decreases depth,
{
    if depth == 0 || pixels.len() <= 1 {
        if pixels.len() > 0 { seq![mean_color(pixels)] } else { seq![] }
    } else {
        let sorted = unstable_sorted_by_channel(pixels, widest_channel(pixels));
        let mid = sorted.len() / 2;
        cut(sorted.take(mid as int), (depth - 1) as nat) + cut(sorted.skip(mid as int), (depth - 1) as nat)
    }
}

/// `s` holds the colors of `p` rearranged in nondecreasing order of channel
/// `ch`.
pub open spec fn sorted_rearrangement(p: Seq<Rgb>, ch: u8, s: Seq<Rgb>) -> bool {
    &&& s.to_multiset() == p.to_multiset()
    &&& forall|i: int, j: int| 0 <= i <= j < s.len() ==> channel(#[trigger] s[i], ch) <= channel(#[trigger] s[j], ch)
}

/// `out` is a median cut of `pixels` to `depth` levels, whichever order the
/// sort leaves pixels with equal keys in: a bucket of more than one pixel is
/// sorted along its widest channel and halved until the depth is used up,
/// and each final bucket is averaged.
pub open spec fn cut_of(pixels: Seq<Rgb>, depth: nat, out: Seq<Rgb>) -> bool
    decreases depth,
{
    if depth == 0 || pixels.len() <= 1 {
        out == (if pixels.len() > 0 { seq![mean_color(pixels)] } else { Seq::<Rgb>::empty() })
    } else {
        exists|s: Seq<Rgb>, k: int|
            #![trigger sorted_rearrangement(pixels, widest_channel(pixels), s), out.take(k)]
            0 <= k <= out.len() && sorted_rearrangement(pixels, widest_channel(pixels), s)
                && cut_of(s.take((s.len() / 2) as int), (depth - 1) as nat, out.take(k))
                && cut_of(s.skip((s.len() / 2) as int), (depth - 1) as nat, out.skip(k))
    }
}

/// Smallest number of halvings that yields at least `count` buckets.
pub open spec fn split_depth(count: nat) -> nat
    decreases count,
{
    if count <= 1 {
        0
    } else {
        1 + split_depth(((count + 1) / 2) as nat)
    }
}

/// Returns (r_range, g_range, b_range) for a nonempty slice of pixels.
pub fn channel_ranges(pixels: &[Rgb]) -> (r: (u8, u8, u8))
    requires
        pixels@.len() > 0,
    ensures
        r == (channel_range(pixels@, 0), channel_range(pixels@, 1), channel_range(pixels@, 2)),
{
    let (mut r_min, mut g_min, mut b_min) = (255u8, 255u8, 255u8);
    let (mut r_max, mut g_max, mut b_max) = (0u8, 0u8, 0u8);
    let mut i: usize = 0;
    while i < pixels.len()
        invariant
            i <= pixels@.len(),
            i == 0 ==> r_min == 255 && g_min == 255 && b_min == 255 && r_max == 0 && g_max == 0 && b_max == 0,
            i > 0 ==> r_min == min_channel(pixels@.take(i as int), 0) && r_max == max_channel(pixels@.take(i as int), 0),
            i > 0 ==> g_min == min_channel(pixels@.take(i as int), 1) && g_max == max_channel(pixels@.take(i as int), 1),
            i > 0 ==> b_min == min_channel(pixels@.take(i as int), 2) && b_max == max_channel(pixels@.take(i as int), 2),
        decreases pixels@.len() - i,
    {
        let p = pixels[i];
        proof {
            let t = pixels@.take(i + 1);
            assert(t.drop_last() =~= pixels@.take(i as int));
            assert(t.last() == p);
        }
        if p.r < r_min { r_min = p.r; }
        if p.r > r_max { r_max = p.r; }
        if p.g < g_min { g_min = p.g; }
        if p.g > g_max { g_max = p.g; }
        if p.b < b_min { b_min = p.b; }
        if p.b > b_max { b_max = p.b; }
        i = i + 1;
    }
    assert(pixels@.take(pixels@.len() as int) =~= pixels@);
    proof {
        lemma_min_le_max(pixels@, 0);
        lemma_min_le_max(pixels@, 1);
        lemma_min_le_max(pixels@, 2);
    }
    (r_max - r_min, g_max - g_min, b_max - b_min)
}

/// Average all pixels in a nonempty bucket into a single representative color.
pub fn average(pixels: &[Rgb]) -> (c: Rgb)
    requires
        pixels@.len() > 0,
        pixels@.len() <= 0x100_0000_0000,
    ensures
        c == mean_color(pixels@),
{
    let n = pixels.len() as u64;
    let mut r: u64 = 0;
    let mut g: u64 = 0;
    let mut b: u64 = 0;
    let mut i: usize = 0;
    while i < pixels.len()
        invariant
            i <= pixels@.len(),
            pixels@.len() <= 0x100_0000_0000,
            r == sum_channel(pixels@.take(i as int), 0),
            g == sum_channel(pixels@.take(i as int), 1),
            b == sum_channel(pixels@.take(i as int), 2),
        decreases pixels@.len() - i,
    {
        let p = pixels[i];
        proof {
            let t = pixels@.take(i + 1);
            assert(t.drop_last() =~= pixels@.take(i as int));
            lemma_sum_bound(t.drop_last(), 0);
            lemma_sum_bound(t.drop_last(), 1);
            lemma_sum_bound(t.drop_last(), 2);
        }
        r = r + p.r as u64;
        g = g + p.g as u64;
        b = b + p.b as u64;
        i = i + 1;
    }
    assert(pixels@.take(pixels@.len() as int) =~= pixels@);
    proof {
        lemma_sum_bound(pixels@, 0);
        lemma_sum_bound(pixels@, 1);
        lemma_sum_bound(pixels@, 2);
        assert(sum_channel(pixels@, 0) / pixels@.len() <= 255) by (nonlinear_arith)
            requires sum_channel(pixels@, 0) <= 255 * pixels@.len(), pixels@.len() > 0;
        assert(sum_channel(pixels@, 1) / pixels@.len() <= 255) by (nonlinear_arith)
            requires sum_channel(pixels@, 1) <= 255 * pixels@.len(), pixels@.len() > 0;
        assert(sum_channel(pixels@, 2) / pixels@.len() <= 255) by (nonlinear_arith)
            requires sum_channel(pixels@, 2) <= 255 * pixels@.len(), pixels@.len() > 0;
    }
    Rgb::new((r / n) as u8, (g / n) as u8, (b / n) as u8)
}

/// Recursively split buckets along the widest color channel, appending one
/// averaged color per bucket to `out`.
fn median_cut(pixels: Vec<Rgb>, depth: usize, out: &mut Vec<Rgb>)
    requires
        pixels@.len() <= 0x100_0000_0000,
    ensures
        final(out)@ == old(out)@ + cut(pixels@, depth as nat),
        pixels@.len() == 0 ==> cut(pixels@, depth as nat).len() == 0,
        pixels@.len() > 0 ==> 1 <= cut(pixels@, depth as nat).len() <= pixels@.len(),
        cut(pixels@, depth as nat).len() <= vstd::arithmetic::power2::pow2(depth as nat),
        cut_of(pixels@, depth as nat, cut(pixels@, depth as nat)),
    decreases depth,
{
    proof {
        vstd::arithmetic::power2::lemma_pow2_pos(depth as nat);
    }
    if depth == 0 || pixels.len() <= 1 {
        if pixels.len() > 0 {
            out.push(average(pixels.as_slice()));
        }
        assert(out@ =~= old(out)@ + cut(pixels@, depth as nat));
        return;
    }
    let (r_range, g_range, b_range) = channel_ranges(pixels.as_slice());
    let ch: u8 = if r_range >= g_range && r_range >= b_range {
        0
    } else if g_range >= r_range && g_range >= b_range {
        1
    } else {
        2
    };
    let mut sorted = pixels;
    sort_unstable_by_channel(&mut sorted, ch);
    proof {
        sorted@.to_multiset_ensures();
        pixels@.to_multiset_ensures();
    }
    assert(sorted@.len() == pixels@.len()) by {
        assert(sorted@.to_multiset().len() == pixels@.to_multiset().len());
    }
    let mid = sorted.len() / 2;
    let hi = sorted.split_off(mid);
    let ghost s = unstable_sorted_by_channel(pixels@, ch);
    assert(sorted@ =~= s.take(mid as int));
    assert(hi@ =~= s.skip(mid as int));
    let ghost lo_cut = cut(sorted@, (depth - 1) as nat);
    let ghost hi_cut = cut(hi@, (depth - 1) as nat);
    median_cut(sorted, depth - 1, out);
    median_cut(hi, depth - 1, out);
    proof {
        vstd::arithmetic::power2::lemma_pow2_unfold(depth as nat);
        let all = cut(pixels@, depth as nat);
        let k = lo_cut.len() as int;
        assert(all == lo_cut + hi_cut);
        assert(all.take(k) =~= lo_cut);
        assert(all.skip(k) =~= hi_cut);
        assert(s.len() == pixels@.len());
        assert(sorted_rearrangement(pixels@, widest_channel(pixels@), s));
        assert(0 <= k <= all.len() && sorted_rearrangement(pixels@, widest_channel(pixels@), s)
            && cut_of(s.take((s.len() / 2) as int), (depth - 1) as nat, all.take(k))
            && cut_of(s.skip((s.len() / 2) as int), (depth - 1) as nat, all.skip(k)));
    }
    assert(out@ =~= old(out)@ + cut(pixels@, depth as nat));
}

/// Depth of the median cut needed for `count` colors: the least `s` with `2^s >= count`.
fn splits_for(count: usize) -> (s: usize)
    ensures
        s == split_depth(count as nat),
        s <= 64,
{
    proof {
        vstd::arithmetic::power2::lemma2_to64();
        vstd::arithmetic::power2::lemma2_to64_rest();
        lemma_split_depth_bound(count as nat, 64);
    }
    let mut s: usize = 0;
    let mut c: usize = count;
    while c > 1
        invariant
            s + split_depth(c as nat) == split_depth(count as nat),
            split_depth(count as nat) <= 64,
        decreases c,
    {
        c = c / 2 + c % 2;
        s = s + 1;
    }
    s
}

proof fn lemma_split_depth_bound(c: nat, k: nat)
    requires
        c <= vstd::arithmetic::power2::pow2(k),
    ensures
        split_depth(c) <= k,
    decreases k,
{
    if c > 1 {
        if k == 0 {
            vstd::arithmetic::power2::lemma2_to64();
        } else {
            vstd::arithmetic::power2::lemma_pow2_unfold(k);
            lemma_split_depth_bound(((c + 1) / 2) as nat, (k - 1) as nat);
        }
    }
}

/// The median-cut backend.
pub struct MedianCut;

/// Colors a median cut returns for `count` requested colors.
pub open spec fn median_cut_colors(pixels: Seq<Rgb>, count: nat) -> Seq<Rgb> {
    let all = cut(pixels, split_depth(count));
    if all.len() > count { all.take(count as int) } else { all }
}

/// `colors` is what a median cut may return for `count` requested colors,
/// whichever order the sort leaves pixels with equal keys in: the cut to the
/// least depth giving `count` buckets, cut short at `count` colors.
pub open spec fn median_cut_result(pixels: Seq<Rgb>, count: nat, colors: Seq<Rgb>) -> bool {
    exists|all: Seq<Rgb>| #[trigger] cut_of(pixels, split_depth(count), all)
        && colors == (if all.len() > count { all.take(count as int) } else { all })
}

impl MedianCut {
    pub fn name(&self) -> (n: &str)
        ensures
            n@ == "median_cut"@,
    {
        "median_cut"
    }

    /// `iterations` is unused in median cut (it is deterministic) but kept
    /// in the signature for consistency with the other backend.
    pub fn generate(&self, pixels: &[Rgb], count: usize, iterations: u8) -> (r: Result<Vec<Rgb>, RwalError>)
        requires
            pixels@.len() <= 0x100_0000_0000,
        ensures
            pixels@.len() == 0 || count == 0 <==> r == Err::<Vec<Rgb>, RwalError>(RwalError::NoColorsExtracted),
            r is Ok ==> r->Ok_0@ == median_cut_colors(pixels@, count as nat),
            r is Ok ==> median_cut_result(pixels@, count as nat, r->Ok_0@),
            pixels@.len() > 0 && count > 0 ==> r is Ok && 1 <= r->Ok_0@.len() <= count
                && r->Ok_0@.len() <= pixels@.len(),
    {
        if pixels.len() == 0 {
            return Err(RwalError::NoColorsExtracted);
        }
        let splits = splits_for(count);
        let pixels_mut: Vec<Rgb> = vstd::slice::slice_to_vec(pixels);
        let mut result: Vec<Rgb> = Vec::with_capacity(count);
        median_cut(pixels_mut, splits, &mut result);
        assert(result@ =~= cut(pixels@, split_depth(count as nat)));
        result.truncate(count);
        assert(result@ =~= median_cut_colors(pixels@, count as nat));
        assert(cut_of(pixels@, split_depth(count as nat), cut(pixels@, split_depth(count as nat))));
        if result.len() == 0 {
            return Err(RwalError::NoColorsExtracted);
        }
        Ok(result)
    }
}

} // verus!

verus! {

/// Median cut never returns more colors than were asked for.
pub proof fn lemma_median_cut_count(pixels: Seq<Rgb>, count: nat)
    ensures
        median_cut_colors(pixels, count).len() <= count,
{
}

} // verus!

verus! {

/// `n` copies of the color `c`.
pub open spec fn repeated(c: Rgb, n: nat) -> Seq<Rgb> {
    Seq::new(n, |i: int| c)
}

proof fn lemma_min_max_attained(s: Seq<Rgb>, ch: u8)
    requires
        s.len() > 0,
    ensures
        forall|i: int| 0 <= i < s.len() ==> min_channel(s, ch) <= channel(#[trigger] s[i], ch) <= max_channel(s, ch),
        exists|i: int| 0 <= i < s.len() && channel(#[trigger] s[i], ch) == min_channel(s, ch),
        exists|i: int| 0 <= i < s.len() && channel(#[trigger] s[i], ch) == max_channel(s, ch),
    decreases s.len(),
{
    if s.len() == 1 {
        assert(channel(s[0], ch) == min_channel(s, ch));
        assert(channel(s[0], ch) == max_channel(s, ch));
    } else {
        let d = s.drop_last();
        lemma_min_max_attained(d, ch);
        assert forall|i: int| 0 <= i < s.len() implies min_channel(s, ch) <= channel(#[trigger] s[i], ch)
            <= max_channel(s, ch) by {
            if i < s.len() - 1 {
                assert(s[i] == d[i]);
            }
        }
        let imin = choose|i: int| 0 <= i < d.len() && channel(#[trigger] d[i], ch) == min_channel(d, ch);
        let imax = choose|i: int| 0 <= i < d.len() && channel(#[trigger] d[i], ch) == max_channel(d, ch);
        assert(s[imin] == d[imin]);
        assert(s[imax] == d[imax]);
        assert(s[s.len() - 1] == s.last());
    }
}

proof fn lemma_two_color_range(a: Rgb, b: Rgb, n: nat, ch: u8)
    requires
        n > 0,
    ensures
        ({
            let p = repeated(a, n) + repeated(b, n);
            let lo = if channel(a, ch) <= channel(b, ch) { channel(a, ch) } else { channel(b, ch) };
            let hi = if channel(a, ch) <= channel(b, ch) { channel(b, ch) } else { channel(a, ch) };
            min_channel(p, ch) == lo && max_channel(p, ch) == hi
        }),
{
    let p = repeated(a, n) + repeated(b, n);
    lemma_min_max_attained(p, ch);
    assert(p[0] == a);
    assert(p[n as int] == b);
    assert forall|i: int| 0 <= i < p.len() implies #[trigger] p[i] == a || p[i] == b by {
        if i < n {
            assert(p[i] == a);
        } else {
            assert(p[i] == b);
        }
    }
}

proof fn lemma_sum_repeated(c: Rgb, n: nat, ch: u8)
    ensures
        sum_channel(repeated(c, n), ch) == n * channel(c, ch),
    decreases n,
{
    if n > 0 {
        assert(repeated(c, n).drop_last() =~= repeated(c, (n - 1) as nat));
        assert(repeated(c, n).last() == c);
        lemma_sum_repeated(c, (n - 1) as nat, ch);
        let x = channel(c, ch) as int;
        let m = (n - 1) as int;
        assert(sum_channel(repeated(c, n), ch) == sum_channel(repeated(c, (n - 1) as nat), ch) + x);
        assert((m + 1) * x == m * x + x) by (nonlinear_arith);
        assert(m + 1 == n);
    } else {
        assert(repeated(c, n).len() == 0);
        assert(sum_channel(repeated(c, n), ch) == 0);
    }
}

proof fn lemma_mean_repeated(c: Rgb, n: nat)
    requires
        n > 0,
    ensures
        mean_color(repeated(c, n)) == c,
{
    lemma_sum_repeated(c, n, 0);
    lemma_sum_repeated(c, n, 1);
    lemma_sum_repeated(c, n, 2);
    let x = c.r as nat;
    let y = c.g as nat;
    let z = c.b as nat;
    assert((n * x) / n == x) by (nonlinear_arith) requires n > 0;
    assert((n * y) / n == y) by (nonlinear_arith) requires n > 0;
    assert((n * z) / n == z) by (nonlinear_arith) requires n > 0;
}

proof fn lemma_count_repeated(c: Rgb, n: nat, d: Rgb)
    ensures
        repeated(c, n).to_multiset().count(d) == (if d == c { n } else { 0 }),
    decreases n,
{
    broadcast use vstd::seq_lib::group_to_multiset_ensures;
    broadcast use vstd::multiset::group_multiset_axioms;

    if n == 0 {
        assert(repeated(c, n) =~= Seq::<Rgb>::empty());
        assert(repeated(c, n).to_multiset().len() == 0);
        if repeated(c, n).to_multiset().count(d) > 0 {
            assert(repeated(c, n).contains(d));
        }
    } else {
        assert(repeated(c, n) =~= repeated(c, (n - 1) as nat).push(c));
        lemma_count_repeated(c, (n - 1) as nat, d);
    }
}

proof fn lemma_count_at_least(s: Seq<Rgb>, i: int, c: Rgb, m: nat)
    requires
        0 <= i <= s.len(),
        s.skip(i) =~= repeated(c, m),
    ensures
        s.to_multiset().count(c) >= m,
{
    broadcast use vstd::multiset::group_multiset_axioms;

    assert(s =~= s.take(i) + s.skip(i));
    vstd::seq_lib::lemma_multiset_commutative(s.take(i), s.skip(i));
    lemma_count_repeated(c, m, c);
}

proof fn lemma_count_at_least_front(s: Seq<Rgb>, j: int, c: Rgb, m: nat)
    requires
        0 <= j <= s.len(),
        s.take(j) =~= repeated(c, m),
    ensures
        s.to_multiset().count(c) >= m,
{
    broadcast use vstd::multiset::group_multiset_axioms;

    assert(s =~= s.take(j) + s.skip(j));
    vstd::seq_lib::lemma_multiset_commutative(s.take(j), s.skip(j));
    lemma_count_repeated(c, m, c);
}

/// Sorted by red, `n` copies each of a darker-red and a lighter-red color
/// fall apart into the first copies and then the second.
proof fn lemma_two_color_sorted(a: Rgb, b: Rgb, n: nat, s: Seq<Rgb>)
    requires
        n > 0,
        a.r < b.r,
        sorted_rearrangement(repeated(a, n) + repeated(b, n), 0, s),
    ensures
        s.len() == 2 * n,
        s.take(n as int) =~= repeated(a, n),
        s.skip(n as int) =~= repeated(b, n),
{
    broadcast use vstd::seq_lib::group_to_multiset_ensures;
    broadcast use vstd::multiset::group_multiset_axioms;

    let p = repeated(a, n) + repeated(b, n);
    vstd::seq_lib::lemma_multiset_commutative(repeated(a, n), repeated(b, n));
    lemma_count_repeated(a, n, a);
    lemma_count_repeated(a, n, b);
    lemma_count_repeated(b, n, a);
    lemma_count_repeated(b, n, b);
    assert(p.to_multiset().count(a) == n);
    assert(p.to_multiset().count(b) == n);
    assert(s.len() == 2 * n) by {
        assert(s.to_multiset().len() == p.to_multiset().len());
    }
    assert forall|i: int| 0 <= i < s.len() implies #[trigger] s[i] == a || s[i] == b by {
        assert(s.contains(s[i]));
        assert(s.to_multiset().count(s[i]) > 0);
        assert(p.contains(s[i]));
        let q = choose|q: int| 0 <= q < p.len() && p[q] == s[i];
        if q < n {
            assert(p[q] == a);
        } else {
            assert(p[q] == b);
        }
    }
    assert forall|i: int| 0 <= i < n implies #[trigger] s[i] == a by {
        if s[i] != a {
            assert(s[i] == b);
            assert forall|j: int| 0 <= j < s.skip(i).len() implies #[trigger] s.skip(i)[j] == b by {
                assert(s.skip(i)[j] == s[i + j]);
                assert(channel(s[i], 0) <= channel(s[i + j], 0));
                if s[i + j] == a {
                    assert(false);
                }
            }
            assert(s.skip(i) =~= repeated(b, (2 * n - i) as nat));
            lemma_count_at_least(s, i, b, (2 * n - i) as nat);
            assert(false);
        }
    }
    assert forall|j: int| n <= j < s.len() implies #[trigger] s[j] == b by {
        if s[j] != b {
            assert(s[j] == a);
            assert forall|i: int| 0 <= i < s.take(j + 1).len() implies #[trigger] s.take(j + 1)[i] == a by {
                assert(s.take(j + 1)[i] == s[i]);
                assert(channel(s[i], 0) <= channel(s[j], 0));
                if s[i] == b {
                    assert(false);
                }
            }
            assert(s.take(j + 1) =~= repeated(a, (j + 1) as nat));
            lemma_count_at_least_front(s, j + 1, a, (j + 1) as nat);
            assert(false);
        }
    }
}

/// A median cut to two colors of pixels made of two colors in equal numbers
/// gives back exactly those two colors when they differ most in red: the one
/// with less red first, then the other.
pub proof fn lemma_two_colors_split_apart(a: Rgb, b: Rgb, n: nat, colors: Seq<Rgb>)
    requires
        n > 0,
        a.r < b.r,
        b.r - a.r >= b.g - a.g,
        b.r - a.r >= a.g - b.g,
        b.r - a.r >= b.b - a.b,
        b.r - a.r >= a.b - b.b,
        median_cut_result(repeated(a, n) + repeated(b, n), 2, colors),
    ensures
        colors == seq![a, b],
{
    let p = repeated(a, n) + repeated(b, n);
    assert(split_depth(2) == 1) by {
        assert(split_depth(1) == 0);
    }
    let all = choose|all: Seq<Rgb>| #[trigger] cut_of(p, split_depth(2), all)
        && colors == (if all.len() > 2 { all.take(2) } else { all });
    lemma_two_color_range(a, b, n, 0);
    lemma_two_color_range(a, b, n, 1);
    lemma_two_color_range(a, b, n, 2);
    assert(widest_channel(p) == 0);
    assert(p.len() == 2 * n);
    let (s, k) = choose|s: Seq<Rgb>, k: int|
        #![trigger sorted_rearrangement(p, widest_channel(p), s), all.take(k)]
        0 <= k <= all.len() && sorted_rearrangement(p, widest_channel(p), s)
            && cut_of(s.take((s.len() / 2) as int), 0, all.take(k))
            && cut_of(s.skip((s.len() / 2) as int), 0, all.skip(k));
    lemma_two_color_sorted(a, b, n, s);
    assert(s.len() == 2 * n);
    assert(s.len() / 2 == n);
    lemma_mean_repeated(a, n);
    lemma_mean_repeated(b, n);
    assert(all.take(k) == seq![a]);
    assert(all.skip(k) == seq![b]);
    assert(all =~= all.take(k) + all.skip(k));
    assert(all =~= seq![a, b]);
}

proof fn lemma_rearranged_repeated(c: Rgb, m: nat, s: Seq<Rgb>)
    requires
        s.to_multiset() == repeated(c, m).to_multiset(),
    ensures
        s =~= repeated(c, m),
{
    broadcast use vstd::seq_lib::group_to_multiset_ensures;

    vstd::seq_lib::to_multiset_len(s);
    vstd::seq_lib::to_multiset_len(repeated(c, m));
    assert(s.len() == m);
    assert forall|i: int| 0 <= i < s.len() implies #[trigger] s[i] == c by {
        assert(s.contains(s[i]));
        assert(s.to_multiset().count(s[i]) > 0);
        assert(repeated(c, m).contains(s[i]));
    }
}

proof fn lemma_cut_uniform(c: Rgb, m: nat, depth: nat, out: Seq<Rgb>)
    requires
        cut_of(repeated(c, m), depth, out),
    ensures
        forall|i: int| 0 <= i < out.len() ==> #[trigger] out[i] == c,
    decreases depth,
{
    let p = repeated(c, m);
    if depth == 0 || p.len() <= 1 {
        if m > 0 {
            lemma_mean_repeated(c, m);
        }
    } else {
        let (s, k) = choose|s: Seq<Rgb>, k: int|
            #![trigger sorted_rearrangement(p, widest_channel(p), s), out.take(k)]
            0 <= k <= out.len() && sorted_rearrangement(p, widest_channel(p), s)
                && cut_of(s.take((s.len() / 2) as int), (depth - 1) as nat, out.take(k))
                && cut_of(s.skip((s.len() / 2) as int), (depth - 1) as nat, out.skip(k));
        lemma_rearranged_repeated(c, m, s);
        let h = (s.len() / 2) as int;
        assert(s.take(h) =~= repeated(c, h as nat));
        assert(s.skip(h) =~= repeated(c, (m - h) as nat));
        lemma_cut_uniform(c, h as nat, (depth - 1) as nat, out.take(k));
        lemma_cut_uniform(c, (m - h) as nat, (depth - 1) as nat, out.skip(k));
        assert forall|i: int| 0 <= i < out.len() implies #[trigger] out[i] == c by {
            if i < k {
                assert(out[i] == out.take(k)[i]);
            } else {
                assert(out[i] == out.skip(k)[i - k]);
            }
        }
    }
}

/// A median cut of pixels that are all one color gives back only that color.
pub proof fn lemma_one_color_stays(c: Rgb, n: nat, count: nat, colors: Seq<Rgb>)
    requires
        median_cut_result(repeated(c, n), count, colors),
    ensures
        forall|i: int| 0 <= i < colors.len() ==> #[trigger] colors[i] == c,
{
    let all = choose|all: Seq<Rgb>| #[trigger] cut_of(repeated(c, n), split_depth(count), all)
        && colors == (if all.len() > count { all.take(count as int) } else { all });
    lemma_cut_uniform(c, n, split_depth(count), all);
    assert forall|i: int| 0 <= i < colors.len() implies #[trigger] colors[i] == c by {
        assert(colors[i] == all[i]);
    }
}

} // verus!
