//! The OSC escape sequences that recolor a running terminal: written to
//! `~/.cache/rwal/sequences` (sourced by login shells) and to the terminal.
use vstd::prelude::*;
use crate::colors::types::{hex_text, ColorDict, Rgb};
use crate::text::{decimal_text, push_decimal, push_str, string_of};

verus! {

/// `ESC ] code ; #rrggbb BEL`, the sequence setting one terminal color.
pub open spec fn osc(code: Seq<char>, c: Rgb) -> Seq<char> {
    seq!['\x1b', ']'] + code + seq![';'] + hex_text(c) + seq!['\x07']
}

/// OSC 4 sequences for palette slots `0..n`.
pub open spec fn slot_sequences(colors: Seq<Rgb>, n: nat) -> Seq<char>
    decreases n,
{
    if n == 0 {
        Seq::empty()
    } else {
        slot_sequences(colors, (n - 1) as nat) + osc(seq!['4', ';'] + decimal_text((n - 1) as nat), colors[n - 1])
    }
}

/// The full sequence text: OSC 4 for color0..color15, then OSC 10
/// (foreground), OSC 11 (background) and OSC 12 (cursor).
pub open spec fn sequence_text(dict: ColorDict) -> Seq<char> {
    slot_sequences(dict.colors@, 16)
        + osc(seq!['1', '0'], dict.special.foreground)
        + osc(seq!['1', '1'], dict.special.background)
        + osc(seq!['1', '2'], dict.special.cursor)
}

fn push_osc_tail(out: &mut Vec<char>, c: &Rgb)
    ensures
        final(out)@ == old(out)@ + seq![';'] + hex_text(*c) + seq!['\x07'],
{
    out.push(';');
    let h = crate::text::chars_of(c.to_hex().as_str());
    crate::text::push_chars(out, &h);
    out.push('\x07');
    assert(out@ =~= old(out)@ + seq![';'] + hex_text(*c) + seq!['\x07']);
}

/// Build the full OSC escape sequence string for a ColorDict.
///
/// OSC 4  sets a numbered terminal color slot (0-15),
/// OSC 10 the foreground, OSC 11 the background, OSC 12 the cursor.
pub fn build_sequences(dict: &ColorDict) -> (s: String)
    ensures
        s@ == sequence_text(*dict),
{
    let mut out: Vec<char> = Vec::new();
    let mut i: usize = 0;
    while i < 16
        invariant
            i <= 16,
            out@ == slot_sequences(dict.colors@, i as nat),
        decreases 16 - i,
    {
        out.push('\x1b');
        out.push(']');
        out.push('4');
        out.push(';');
        push_decimal(&mut out, i as u64);
        push_osc_tail(&mut out, &dict.colors[i]);
        assert(out@ =~= slot_sequences(dict.colors@, (i + 1) as nat));
        i = i + 1;
    }
    let ghost slots = out@;
    out.push('\x1b');
    out.push(']');
    out.push('1');
    out.push('0');
    push_osc_tail(&mut out, &dict.special.foreground);
    out.push('\x1b');
    out.push(']');
    out.push('1');
    out.push('1');
    push_osc_tail(&mut out, &dict.special.background);
    out.push('\x1b');
    out.push(']');
    out.push('1');
    out.push('2');
    push_osc_tail(&mut out, &dict.special.cursor);
    assert(out@ =~= sequence_text(*dict));
    string_of(&out)
}

/// Every palette slot `i < n` has its OSC 4 sequence in the text, in slot order.
pub proof fn lemma_slot_sequence_present(colors: Seq<Rgb>, n: nat, i: nat)
    requires
        i < n,
    ensures
        slot_sequences(colors, n).subrange(
            slot_sequences(colors, i).len() as int,
            slot_sequences(colors, i + 1).len() as int,
        ) == osc(seq!['4', ';'] + decimal_text(i), colors[i as int]),
        slot_sequences(colors, i + 1).len() <= slot_sequences(colors, n).len(),
    decreases n,
{
    if n == i + 1 {
        assert(slot_sequences(colors, n).subrange(
            slot_sequences(colors, i).len() as int,
            slot_sequences(colors, i + 1).len() as int,
        ) =~= osc(seq!['4', ';'] + decimal_text(i), colors[i as int]));
    } else {
        lemma_slot_sequence_present(colors, (n - 1) as nat, i);
        let prev = slot_sequences(colors, (n - 1) as nat);
        assert(slot_sequences(colors, n).subrange(
            slot_sequences(colors, i).len() as int,
            slot_sequences(colors, i + 1).len() as int,
        ) =~= prev.subrange(
            slot_sequences(colors, i).len() as int,
            slot_sequences(colors, i + 1).len() as int,
        ));
    }
}

} // verus!
