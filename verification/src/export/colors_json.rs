//! The content of `~/.cache/rwal/colors.json` (pywal's format): what other
//! tools read. The JSON text itself is written and parsed by serde outside
//! the library; here are the entries that go into it and the decoding of the
//! strings that come out of it.
use vstd::prelude::*;
use crate::colors::types::{hex_input_ok, hex_text, lemma_hex_roundtrip, text_color, ColorDict, Rgb, Special};
use crate::error::RwalError;
use crate::text::{decimal_text, lemma_decimal_injective, push_decimal, str_eq, string_of};

verus! {

/// `colorN`, the key of palette slot N.
pub open spec fn color_key(i: nat) -> Seq<char> {
    seq!['c', 'o', 'l', 'o', 'r'] + decimal_text(i)
}

/// The (key, value) texts of a list of string pairs.
pub open spec fn entry_views(entries: Seq<(String, String)>) -> Seq<(Seq<char>, Seq<char>)> {
    Seq::new(entries.len(), |i: int| (entries[i].0@, entries[i].1@))
}

/// The first value filed under `key`.
pub open spec fn lookup(entries: Seq<(Seq<char>, Seq<char>)>, key: Seq<char>) -> Option<Seq<char>>
    decreases entries.len(),
{
    if entries.len() == 0 {
        None
    } else if entries[0].0 == key {
        Some(entries[0].1)
    } else {
        lookup(entries.drop_first(), key)
    }
}

/// The color in slot `i`, read from the entries: present under `colorI` and a valid hex color.
pub open spec fn decoded_slot(entries: Seq<(Seq<char>, Seq<char>)>, i: nat) -> Option<Rgb> {
    match lookup(entries, color_key(i)) {
        Some(v) => text_color(v),
        None => None,
    }
}

/// Whether all sixteen slots and the three special colors decode.
pub open spec fn decodes(entries: Seq<(Seq<char>, Seq<char>)>, background: Seq<char>, foreground: Seq<char>, cursor: Seq<char>) -> bool {
    &&& forall|i: nat| i < 16 ==> (#[trigger] decoded_slot(entries, i)) is Some
    &&& text_color(background) is Some
    &&& text_color(foreground) is Some
    &&& text_color(cursor) is Some
}

/// The "colorN" → "#rrggbb" entries of colors.json, slot by slot.
pub fn color_entries(dict: &ColorDict) -> (v: Vec<(String, String)>)
    ensures
        entry_views(v@) == Seq::new(16, |i: int| (color_key(i as nat), hex_text(dict.colors@[i]))),
{
    let mut v: Vec<(String, String)> = Vec::new();
    let mut i: usize = 0;
    while i < 16
        invariant
            i <= 16,
            v@.len() == i,
            forall|q: int| 0 <= q < i ==> (#[trigger] v@[q]).0@ == color_key(q as nat) && v@[q].1@ == hex_text(dict.colors@[q]),
        decreases 16 - i,
    {
        let mut key: Vec<char> = Vec::new();
        key.push('c');
        key.push('o');
        key.push('l');
        key.push('o');
        key.push('r');
        push_decimal(&mut key, i as u64);
        assert(key@ =~= color_key(i as nat));
        v.push((string_of(&key), dict.colors[i].to_hex()));
        i = i + 1;
    }
    assert(entry_views(v@) =~= Seq::new(16, |i: int| (color_key(i as nat), hex_text(dict.colors@[i]))));
    v
}

fn find_value<'a>(entries: &'a Vec<(String, String)>, key: &str) -> (r: Option<&'a String>)
    ensures
        r is None <==> lookup(entry_views(entries@), key@) is None,
        r is Some ==> lookup(entry_views(entries@), key@) == Some(r->Some_0@),
{
    let mut i: usize = 0;
    assert(entry_views(entries@).skip(0) =~= entry_views(entries@));
    while i < entries.len()
        invariant
            i <= entries@.len(),
            lookup(entry_views(entries@), key@) == lookup(entry_views(entries@).skip(i as int), key@),
        decreases entries@.len() - i,
    {
        let ghost rest = entry_views(entries@).skip(i as int);
        assert(rest[0] == (entries@[i as int].0@, entries@[i as int].1@));
        if str_eq(entries[i].0.as_str(), key) {
            return Some(&entries[i].1);
        }
        assert(rest.drop_first() =~= entry_views(entries@).skip(i + 1));
        i = i + 1;
    }
    assert(entry_views(entries@).skip(entries@.len() as int).len() == 0);
    None
}

fn decode_slot(colors: &Vec<(String, String)>, i: usize) -> (r: Option<Rgb>)
    requires
        forall|q: int| 0 <= q < colors@.len() ==> hex_input_ok((#[trigger] colors@[q]).1@),
    ensures
        r == decoded_slot(entry_views(colors@), i as nat),
{
    let mut key: Vec<char> = Vec::new();
    key.push('c');
    key.push('o');
    key.push('l');
    key.push('o');
    key.push('r');
    push_decimal(&mut key, i as u64);
    assert(key@ =~= color_key(i as nat));
    let key = string_of(&key);
    match find_value(colors, key.as_str()) {
        None => None,
        Some(hex) => {
            proof {
                lemma_lookup_from(colors@, key@);
            }
            Rgb::from_hex(hex.as_str())
        },
    }
}

/// Decode the strings of a colors.json (or theme) file into a `ColorDict`.
/// Any missing slot or malformed color gives `corrupt`.
#[verifier::rlimit(50)]
pub fn parse_color_dict(
    wallpaper: String,
    alpha: u8,
    background: &str,
    foreground: &str,
    cursor: &str,
    colors: &Vec<(String, String)>,
    corrupt: RwalError,
) -> (r: Result<ColorDict, RwalError>)
    requires
        forall|i: int| 0 <= i < colors@.len() ==> hex_input_ok((#[trigger] colors@[i]).1@),
        hex_input_ok(background@),
        hex_input_ok(foreground@),
        hex_input_ok(cursor@),
    ensures
        r is Ok <==> decodes(entry_views(colors@), background@, foreground@, cursor@),
        r is Err ==> r->Err_0 == corrupt,
        r is Ok ==> {
            let d = r->Ok_0;
            &&& d.wallpaper == wallpaper
            &&& d.alpha == alpha
            &&& forall|i: int| 0 <= i < 16 ==> Some(#[trigger] d.colors@[i]) == decoded_slot(entry_views(colors@), i as nat)
            &&& Some(d.special.background) == text_color(background@)
            &&& Some(d.special.foreground) == text_color(foreground@)
            &&& Some(d.special.cursor) == text_color(cursor@)
        },
{
    let ghost ev = entry_views(colors@);
    let mut slots: Vec<Rgb> = Vec::new();
    let mut i: usize = 0;
    while i < 16
        invariant
            i <= 16,
            ev == entry_views(colors@),
            forall|q: int| 0 <= q < colors@.len() ==> hex_input_ok((#[trigger] colors@[q]).1@),
            slots@.len() == i,
            forall|q: int| 0 <= q < i ==> Some(#[trigger] slots@[q]) == decoded_slot(ev, q as nat),
        decreases 16 - i,
    {
        match decode_slot(colors, i) {
            None => {
                assert(!((decoded_slot(ev, i as nat)) is Some));
                assert(!decodes(ev, background@, foreground@, cursor@));
                return Err(corrupt);
            },
            Some(c) => {
                slots.push(c);
            },
        }
        i = i + 1;
    }
    let bg = match Rgb::from_hex(background) {
        Some(c) => c,
        None => {
            return Err(corrupt);
        },
    };
    let fg = match Rgb::from_hex(foreground) {
        Some(c) => c,
        None => {
            return Err(corrupt);
        },
    };
    let cur = match Rgb::from_hex(cursor) {
        Some(c) => c,
        None => {
            return Err(corrupt);
        },
    };
    let colors_arr: [Rgb; 16] = [
        slots[0], slots[1], slots[2], slots[3], slots[4], slots[5], slots[6], slots[7],
        slots[8], slots[9], slots[10], slots[11], slots[12], slots[13], slots[14], slots[15],
    ];
    assert(colors_arr@ =~= slots@);
    let d = ColorDict {
        wallpaper,
        alpha,
        special: Special { background: bg, foreground: fg, cursor: cur },
        colors: colors_arr,
    };
    assert forall|q: nat| q < 16 implies (#[trigger] decoded_slot(ev, q)) is Some by {
        assert(Some(slots@[q as int]) == decoded_slot(ev, q));
    }
    Ok(d)
}

/// A value found by `lookup` is one of the entries' values.
proof fn lemma_lookup_from(entries: Seq<(String, String)>, key: Seq<char>)
    ensures
        lookup(entry_views(entries), key) is Some ==> exists|i: int|
            0 <= i < entries.len() && lookup(entry_views(entries), key) == Some(#[trigger] entries[i].1@),
    decreases entries.len(),
{
    if entries.len() > 0 {
        let ev = entry_views(entries);
        lemma_lookup_from(entries.drop_first(), key);
        assert(entry_views(entries.drop_first()) =~= ev.drop_first());
        if ev[0].0 != key && lookup(ev, key) is Some {
            let i = choose|i: int| 0 <= i < entries.drop_first().len() && lookup(entry_views(entries.drop_first()), key) == Some(#[trigger] entries.drop_first()[i].1@);
            assert(entries[i + 1] == entries.drop_first()[i]);
        }
    }
}

/// The entries `color_entries` writes for `d`.
pub open spec fn encoded_entries(d: ColorDict) -> Seq<(Seq<char>, Seq<char>)> {
    Seq::new(16, |i: int| (color_key(i as nat), hex_text(d.colors@[i])))
}

proof fn lemma_lookup_at(entries: Seq<(Seq<char>, Seq<char>)>, key: Seq<char>, i: int)
    requires
        0 <= i < entries.len(),
        entries[i].0 == key,
        forall|j: int| 0 <= j < i ==> (#[trigger] entries[j]).0 != key,
    ensures
        lookup(entries, key) == Some(entries[i].1),
    decreases i,
{
    if i > 0 {
        let t = entries.drop_first();
        assert forall|j: int| 0 <= j < i - 1 implies (#[trigger] t[j]).0 != key by {
            assert(t[j] == entries[j + 1]);
        }
        assert(entries[0].0 != key);
        lemma_lookup_at(t, key, i - 1);
    }
}

/// What is written as colors.json entries reads back as the same scheme: every
/// slot decodes to its color, every special color to itself, and none of the
/// texts is one the hex reader refuses.
pub proof fn lemma_entries_roundtrip(d: ColorDict)
    ensures
        forall|i: nat| i < 16 ==> #[trigger] decoded_slot(encoded_entries(d), i) == Some(d.colors@[i as int]),
        decodes(
            encoded_entries(d),
            hex_text(d.special.background),
            hex_text(d.special.foreground),
            hex_text(d.special.cursor),
        ),
        forall|i: int| 0 <= i < 16 ==> hex_input_ok(#[trigger] encoded_entries(d)[i].1),
{
    let e = encoded_entries(d);
    assert forall|i: nat| i < 16 implies #[trigger] decoded_slot(e, i) == Some(d.colors@[i as int]) by {
        assert forall|j: int| 0 <= j < i implies (#[trigger] e[j]).0 != color_key(i) by {
            if e[j].0 == color_key(i) {
                assert(color_key(j as nat).skip(5) =~= decimal_text(j as nat));
                assert(color_key(i).skip(5) =~= decimal_text(i));
                lemma_decimal_injective(j as nat, i);
            }
        }
        lemma_lookup_at(e, color_key(i), i as int);
        lemma_hex_roundtrip(d.colors@[i as int]);
    }
    lemma_hex_roundtrip(d.special.background);
    lemma_hex_roundtrip(d.special.foreground);
    lemma_hex_roundtrip(d.special.cursor);
    assert forall|i: int| 0 <= i < 16 implies hex_input_ok(#[trigger] e[i].1) by {
        lemma_hex_roundtrip(d.colors@[i]);
    }
}

} // verus!
