//! Palette-wide slot adjustments that need no color math.
use vstd::prelude::*;
use crate::colors::types::Rgb;

verus! {

/// The light-mode arrangement of sixteen slots: color0 and color15 trade
/// places, so do color7 and color8.
pub open spec fn swapped_for_light(c: Seq<Rgb>) -> Seq<Rgb> {
    c.update(0, c[15]).update(15, c[0]).update(7, c[8]).update(8, c[7])
}

/// Invert the palette for light mode:
/// swaps color0 with color15 and color7 with color8.
pub fn invert_for_light(colors: &[Rgb; 16]) -> (out: [Rgb; 16])
    ensures
        out@ == swapped_for_light(colors@),
{
    let mut out = *colors;
    let t0 = out[0];
    out[0] = out[15];
    out[15] = t0;
    let t7 = out[7];
    out[7] = out[8];
    out[8] = t7;
    assert(out@ =~= swapped_for_light(colors@));
    out
}

/// Inverting twice restores the original palette.
pub proof fn lemma_invert_involution(c: Seq<Rgb>)
    requires
        c.len() == 16,
    ensures
        swapped_for_light(swapped_for_light(c)) == c,
{
    assert(swapped_for_light(swapped_for_light(c)) =~= c);
}

/// Inversion leaves every slot other than 0, 7, 8 and 15 alone.
pub proof fn lemma_invert_fixes_other_slots(c: Seq<Rgb>, i: int)
    requires
        c.len() == 16,
        0 <= i < 16,
        i != 0 && i != 7 && i != 8 && i != 15,
    ensures
        swapped_for_light(c)[i] == c[i],
{
}

} // verus!
