//! Token replacement for user templates: `{color0}`..`{color15}`,
//! `{background}`, `{foreground}`, `{cursor}`, `{wallpaper}`, `{alpha}`, and
//! the semantic roles (`{surface}`, `{primary}`, `{error}`, …).
use vstd::prelude::*;
use crate::colors::semantic::SemanticRoles;
use crate::colors::types::{hex_text, ColorDict};
use crate::text::{chars_of, decimal_text, occurs_in, push_decimal, replace_all, replace_chars, string_of};

verus! {

/// `{colorN}`.
pub open spec fn color_token(i: nat) -> Seq<char> {
    seq!['{', 'c', 'o', 'l', 'o', 'r'] + decimal_text(i) + seq!['}']
}

/// The (token, value) pairs, in the order they are substituted.
pub open spec fn token_pairs(dict: ColorDict) -> Seq<(Seq<char>, Seq<char>)> {
    Seq::new(16, |i: int| (color_token(i as nat), hex_text(dict.colors@[i])))
        + seq![
        ("{background}"@, hex_text(dict.special.background)),
        ("{foreground}"@, hex_text(dict.special.foreground)),
        ("{cursor}"@, hex_text(dict.special.cursor)),
        ("{wallpaper}"@, dict.wallpaper@),
        ("{alpha}"@, decimal_text(dict.alpha as nat)),
    ]
}

/// `s` after substituting each pair in turn, first pair first: each
/// substitution works on the text the previous ones produced.
pub open spec fn replace_each(s: Seq<char>, pairs: Seq<(Seq<char>, Seq<char>)>) -> Seq<char>
    decreases pairs.len(),
{
    if pairs.len() == 0 {
        s
    } else {
        let t = replace_each(s, pairs.drop_last());
        replace_all(t, pairs.last().0, pairs.last().1)
    }
}

fn substitute(out: Vec<char>, token: &str, value: &Vec<char>) -> (r: Vec<char>)
    requires
        token@.len() > 0,
    ensures
        r@ == replace_all(out@, token@, value@),
{
    let t = chars_of(token);
    replace_chars(&out, &t, value)
}

/// Replace all `{token}` placeholders in a template with values from the dict:
/// palette colors, background, foreground and cursor as `#rrggbb`, the
/// wallpaper path, and alpha (0-100).
pub fn replace_tokens(contents: &str, dict: &ColorDict) -> (s: String)
    ensures
        s@ == replace_each(contents@, token_pairs(*dict)),
{
    let ghost pairs = token_pairs(*dict);
    let mut out = chars_of(contents);
    let mut i: usize = 0;
    while i < 16
        invariant
            i <= 16,
            pairs == token_pairs(*dict),
            out@ == replace_each(contents@, pairs.take(i as int)),
        decreases 16 - i,
    {
        let mut tok: Vec<char> = Vec::new();
        tok.push('{');
        tok.push('c');
        tok.push('o');
        tok.push('l');
        tok.push('o');
        tok.push('r');
        push_decimal(&mut tok, i as u64);
        tok.push('}');
        assert(tok@ =~= color_token(i as nat));
        let value = chars_of(dict.colors[i].to_hex().as_str());
        out = replace_chars(&out, &tok, &value);
        assert(pairs.take(i + 1).drop_last() =~= pairs.take(i as int));
        assert(pairs.take(i + 1).last() == pairs[i as int]);
        i = i + 1;
    }
    proof {
        reveal_strlit("{background}");
        reveal_strlit("{foreground}");
        reveal_strlit("{cursor}");
        reveal_strlit("{wallpaper}");
        reveal_strlit("{alpha}");
    }
    out = substitute(out, "{background}", &chars_of(dict.special.background.to_hex().as_str()));
    assert(pairs.take(17).drop_last() =~= pairs.take(16));
    assert(pairs.take(17).last() == pairs[16]);
    assert(pairs[16].0 == "{background}"@);
    assert(out@ == replace_each(contents@, pairs.take(17)));
    out = substitute(out, "{foreground}", &chars_of(dict.special.foreground.to_hex().as_str()));
    assert(pairs.take(18).drop_last() =~= pairs.take(17));
    assert(pairs.take(18).last() == pairs[17]);
    assert(pairs[17].0 == "{foreground}"@);
    assert(out@ == replace_each(contents@, pairs.take(18)));
    out = substitute(out, "{cursor}", &chars_of(dict.special.cursor.to_hex().as_str()));
    assert(pairs.take(19).drop_last() =~= pairs.take(18));
    assert(pairs.take(19).last() == pairs[18]);
    assert(pairs[18].0 == "{cursor}"@);
    assert(out@ == replace_each(contents@, pairs.take(19)));
    out = substitute(out, "{wallpaper}", &chars_of(dict.wallpaper.as_str()));
    assert(pairs.take(20).drop_last() =~= pairs.take(19));
    assert(pairs.take(20).last() == pairs[19]);
    assert(pairs[19].0 == "{wallpaper}"@);
    assert(out@ == replace_each(contents@, pairs.take(20)));
    let mut alpha: Vec<char> = Vec::new();
    push_decimal(&mut alpha, dict.alpha as u64);
    out = substitute(out, "{alpha}", &alpha);
    assert(pairs.take(21).drop_last() =~= pairs.take(20));
    assert(pairs.take(21).last() == pairs[20]);
    assert(pairs[20].0 == "{alpha}"@);
    assert(out@ == replace_each(contents@, pairs.take(21)));
    assert(pairs.take(21) =~= pairs);
    string_of(&out)
}

/// A placeholder: `{`, then characters other than braces, then `}`.
pub open spec fn braced(p: Seq<char>) -> bool {
    &&& p.len() >= 2
    &&& p[0] == '{'
    &&& p.last() == '}'
    &&& forall|k: int| 0 < k < p.len() - 1 ==> #[trigger] p[k] != '{' && p[k] != '}'
}

proof fn lemma_braced_absent(p: Seq<char>, s: Seq<char>)
    requires
        braced(p),
        braced(s),
        p != s,
    ensures
        !occurs_in(p, s),
{
    if occurs_in(p, s) {
        let k = choose|k: int| 0 <= k && k + p.len() <= s.len() && #[trigger] s.subrange(k, k + p.len()) == p;
        assert(s.subrange(k, k + p.len())[0] == s[k]);
        assert(s[k] == '{');
        assert(k == 0);
        let e = p.len() - 1;
        assert(s.subrange(0, p.len() as int)[e] == s[e]);
        assert(s[e] == '}');
        assert(e == s.len() - 1);
        assert(p =~= s);
    }
}

proof fn lemma_no_brace_absent(p: Seq<char>, s: Seq<char>)
    requires
        p.len() > 0,
        p[0] == '{',
        forall|k: int| 0 <= k < s.len() ==> #[trigger] s[k] != '{',
    ensures
        !occurs_in(p, s),
{
    if occurs_in(p, s) {
        let k = choose|k: int| 0 <= k && k + p.len() <= s.len() && #[trigger] s.subrange(k, k + p.len()) == p;
        assert(s.subrange(k, k + p.len())[0] == s[k]);
    }
}

proof fn lemma_replace_whole(s: Seq<char>, rep: Seq<char>)
    requires
        s.len() > 0,
    ensures
        replace_all(s, s, rep) == rep,
{
    let e = s.skip(s.len() as int);
    assert(s.take(s.len() as int) =~= s);
    assert(e =~= Seq::<char>::empty());
    assert(replace_all(e, s, rep) == e);
    assert(replace_all(s, s, rep) == rep + replace_all(e, s, rep));
    assert(rep + e =~= rep);
}

/// Substituting pairs in turn into a lone placeholder that is key `i`: the
/// keys before it are other placeholders and leave it alone, key `i` turns it
/// into its value, and the keys after it (all opening with `{`) find no
/// `{` in a value that has none.
proof fn lemma_lone_token(s: Seq<char>, pairs: Seq<(Seq<char>, Seq<char>)>, i: int, m: int)
    requires
        braced(s),
        0 <= i < pairs.len(),
        pairs[i].0 == s,
        forall|j: int| 0 <= j < i ==> braced(#[trigger] pairs[j].0) && pairs[j].0 != s,
        forall|j: int| i < j < pairs.len() ==> (#[trigger] pairs[j].0).len() > 0 && pairs[j].0[0] == '{',
        forall|k: int| 0 <= k < pairs[i].1.len() ==> #[trigger] pairs[i].1[k] != '{',
        0 <= m <= pairs.len(),
    ensures
        m <= i ==> replace_each(s, pairs.take(m)) == s,
        m > i ==> replace_each(s, pairs.take(m)) == pairs[i].1,
    decreases m,
{
    let t = pairs.take(m);
    if m == 0 {
        assert(t =~= Seq::<(Seq<char>, Seq<char>)>::empty());
    } else {
        lemma_lone_token(s, pairs, i, m - 1);
        assert(t.drop_last() =~= pairs.take(m - 1));
        assert(t.last() == pairs[m - 1]);
        let prev = replace_each(s, pairs.take(m - 1));
        if m - 1 < i {
            lemma_braced_absent(pairs[m - 1].0, s);
            crate::text::lemma_replace_absent(s, pairs[m - 1].0, pairs[m - 1].1);
        } else if m - 1 == i {
            lemma_replace_whole(s, pairs[i].1);
        } else {
            lemma_no_brace_absent(pairs[m - 1].0, pairs[i].1);
            crate::text::lemma_replace_absent(pairs[i].1, pairs[m - 1].0, pairs[m - 1].1);
        }
    }
}

proof fn lemma_decimal_digits(n: nat)
    ensures
        forall|k: int| 0 <= k < decimal_text(n).len() ==> '0' <= #[trigger] decimal_text(n)[k] <= '9',
    decreases n,
{
    if n >= 10 {
        lemma_decimal_digits(n / 10);
        let a = decimal_text(n / 10);
        assert forall|k: int| 0 <= k < decimal_text(n).len() implies '0' <= #[trigger] decimal_text(n)[k] <= '9' by {
            if k < a.len() {
                assert(decimal_text(n)[k] == a[k]);
            }
        }
    }
}

/// Each palette token on its own renders as the `#rrggbb` text of its own
/// slot: a template that is just `{colorI}` (I below 16) becomes the hex of
/// color I, whatever the rest of the dict holds.
pub proof fn lemma_color_token_renders_its_slot(dict: ColorDict, i: nat)
    requires
        i < 16,
    ensures
        replace_each("{color"@ + decimal_text(i) + "}"@, token_pairs(dict)) == hex_text(dict.colors@[i as int]),
{
    reveal_strlit("{color");
    reveal_strlit("}");
    reveal_strlit("{background}");
    reveal_strlit("{foreground}");
    reveal_strlit("{cursor}");
    reveal_strlit("{wallpaper}");
    reveal_strlit("{alpha}");
    let pairs = token_pairs(dict);
    let s = "{color"@ + decimal_text(i) + "}"@;
    assert(s =~= color_token(i));
    assert forall|j: nat| j < 16 implies braced(#[trigger] color_token(j)) by {
        lemma_decimal_digits(j);
        crate::text::lemma_decimal_nonempty(j);
        let c = color_token(j);
        let d = decimal_text(j);
        assert forall|k: int| 0 < k < c.len() - 1 implies #[trigger] c[k] != '{' && c[k] != '}' by {
            if k >= 6 {
                assert(c[k] == d[k - 6]);
            }
        }
    }
    assert forall|j: int| 0 <= j < i implies braced(#[trigger] pairs[j].0) && pairs[j].0 != s by {
        assert(pairs[j].0 == color_token(j as nat));
        if color_token(j as nat) == s {
            assert(decimal_text(j as nat) =~= color_token(j as nat).subrange(6, color_token(j as nat).len() - 1));
            assert(decimal_text(i) =~= s.subrange(6, s.len() - 1));
            crate::text::lemma_decimal_injective(j as nat, i);
        }
    }
    assert forall|j: int| i < j < pairs.len() implies (#[trigger] pairs[j].0).len() > 0 && pairs[j].0[0] == '{' by {
        if j < 16 {
            assert(pairs[j].0 == color_token(j as nat));
        }
    }
    let h = hex_text(dict.colors@[i as int]);
    assert(pairs[i as int].1 == h);
    assert forall|k: int| 0 <= k < h.len() implies #[trigger] h[k] != '{' by {}
    lemma_lone_token(s, pairs, i as int, pairs.len() as int);
    assert(pairs.take(pairs.len() as int) =~= pairs);
}

/// The semantic-role (token, value) pairs, in the order they are substituted.
pub open spec fn role_pairs(roles: SemanticRoles) -> Seq<(Seq<char>, Seq<char>)> {
    seq![
        ("{surface}"@, hex_text(roles.surface)),
        ("{primary}"@, hex_text(roles.primary)),
        ("{secondary}"@, hex_text(roles.secondary)),
        ("{tertiary}"@, hex_text(roles.tertiary)),
        ("{accent}"@, hex_text(roles.accent)),
        ("{error}"@, hex_text(roles.error)),
        ("{success}"@, hex_text(roles.success)),
        ("{warning}"@, hex_text(roles.warning)),
        ("{info}"@, hex_text(roles.info)),
        ("{neutral}"@, hex_text(roles.neutral)),
        ("{neutral_variant}"@, hex_text(roles.neutral_variant)),
    ]
}

/// The texts of (token, value) string pairs.
pub open spec fn pair_views(v: Seq<(String, String)>) -> Seq<(Seq<char>, Seq<char>)> {
    Seq::new(v.len(), |i: int| (v[i].0@, v[i].1@))
}

fn substitute_all(contents: Vec<char>, pairs: &Vec<(String, String)>) -> (r: Vec<char>)
    requires
        forall|i: int| 0 <= i < pairs@.len() ==> (#[trigger] pairs@[i]).0@.len() > 0,
    ensures
        r@ == replace_each(contents@, pair_views(pairs@)),
{
    let ghost pv = pair_views(pairs@);
    let mut out = contents;
    let ghost start = out@;
    let mut i: usize = 0;
    assert(pv.take(0) =~= Seq::<(Seq<char>, Seq<char>)>::empty());
    while i < pairs.len()
        invariant
            i <= pairs@.len(),
            pv == pair_views(pairs@),
            forall|q: int| 0 <= q < pairs@.len() ==> (#[trigger] pairs@[q]).0@.len() > 0,
            out@ == replace_each(start, pv.take(i as int)),
        decreases pairs@.len() - i,
    {
        let value = chars_of(pairs[i].1.as_str());
        out = substitute(out, pairs[i].0.as_str(), &value);
        assert(pv.take(i + 1).drop_last() =~= pv.take(i as int));
        assert(pv.take(i + 1).last() == pv[i as int]);
        i = i + 1;
    }
    assert(pv.take(pairs@.len() as int) =~= pv);
    out
}

fn role_pair(token: &str, c: &crate::colors::types::Rgb) -> (p: (String, String))
    ensures
        p.0@ == token@,
        p.1@ == hex_text(*c),
{
    (token.to_string(), c.to_hex())
}

/// Replace the semantic-role placeholders of a template with the roles'
/// colors as `#rrggbb`: `{surface}`, `{primary}`, `{secondary}`,
/// `{tertiary}`, `{accent}`, `{error}`, `{success}`, `{warning}`, `{info}`,
/// `{neutral}`, `{neutral_variant}`.
pub fn replace_role_tokens(contents: &str, roles: &SemanticRoles) -> (s: String)
    ensures
        s@ == replace_each(contents@, role_pairs(*roles)),
{
    proof {
        reveal_strlit("{surface}");
        reveal_strlit("{primary}");
        reveal_strlit("{secondary}");
        reveal_strlit("{tertiary}");
        reveal_strlit("{accent}");
        reveal_strlit("{error}");
        reveal_strlit("{success}");
        reveal_strlit("{warning}");
        reveal_strlit("{info}");
        reveal_strlit("{neutral}");
        reveal_strlit("{neutral_variant}");
    }
    let mut pairs: Vec<(String, String)> = Vec::new();
    pairs.push(role_pair("{surface}", &roles.surface));
    pairs.push(role_pair("{primary}", &roles.primary));
    pairs.push(role_pair("{secondary}", &roles.secondary));
    pairs.push(role_pair("{tertiary}", &roles.tertiary));
    pairs.push(role_pair("{accent}", &roles.accent));
    pairs.push(role_pair("{error}", &roles.error));
    pairs.push(role_pair("{success}", &roles.success));
    pairs.push(role_pair("{warning}", &roles.warning));
    pairs.push(role_pair("{info}", &roles.info));
    pairs.push(role_pair("{neutral}", &roles.neutral));
    pairs.push(role_pair("{neutral_variant}", &roles.neutral_variant));
    assert(pair_views(pairs@) =~= role_pairs(*roles));
    let out = substitute_all(chars_of(contents), &pairs);
    string_of(&out)
}

/// A template rendered with every token of the token table: the palette
/// tokens first, then the semantic-role tokens.
pub open spec fn rendered(contents: Seq<char>, dict: ColorDict, roles: SemanticRoles) -> Seq<char> {
    replace_each(replace_each(contents, token_pairs(dict)), role_pairs(roles))
}

/// Render a user template: replace the palette tokens (`{color0}`..
/// `{color15}`, `{background}`, `{foreground}`, `{cursor}`, `{wallpaper}`,
/// `{alpha}`) with values from the dict, then the semantic-role tokens
/// (`{primary}`, `{surface}`, `{error}`, …) with the roles' colors.
pub fn render_template(contents: &str, dict: &ColorDict, roles: &SemanticRoles) -> (s: String)
    ensures
        s@ == rendered(contents@, *dict, *roles),
{
    let with_palette = replace_tokens(contents, dict);
    replace_role_tokens(with_palette.as_str(), roles)
}

/// A template that holds none of the tokens comes back unchanged.
pub proof fn lemma_no_tokens_unchanged(s: Seq<char>, pairs: Seq<(Seq<char>, Seq<char>)>)
    requires
        forall|i: int| 0 <= i < pairs.len() ==> !occurs_in(#[trigger] pairs[i].0, s),
    ensures
        replace_each(s, pairs) == s,
    decreases pairs.len(),
{
    if pairs.len() > 0 {
        let d = pairs.drop_last();
        assert forall|i: int| 0 <= i < d.len() implies !occurs_in(#[trigger] d[i].0, s) by {
            assert(d[i] == pairs[i]);
        }
        lemma_no_tokens_unchanged(s, d);
        assert(pairs.last() == pairs[pairs.len() - 1]);
        crate::text::lemma_replace_absent(s, pairs.last().0, pairs.last().1);
    }
}

} // verus!
