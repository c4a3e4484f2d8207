//! Named themes: a saved scheme in the colors.json layout, looked up first in
//! the user's themes directory, then among the bundled ones. Finding and
//! reading the files happens outside the library; here are the names and
//! paths to look for and the decoding of what was found.
use vstd::prelude::*;
use crate::colors::types::{hex_input_ok, text_color, ColorDict};
use crate::error::RwalError;
use crate::export::colors_json::{decodes, decoded_slot, entry_views, parse_color_dict};
use crate::paths::{join, path_join, Paths};
use crate::text::{chars_of, push_str, string_of};

verus! {

/// The fields of a theme (or colors.json) file, as serde reads them.
pub struct ThemeFile {
    pub wallpaper: String,
    pub alpha: u8,
    pub background: String,
    pub foreground: String,
    pub cursor: String,
    /// The `colors` table: key, value.
    pub colors: Vec<(String, String)>,
}

impl ThemeFile {
    /// Every color string can be handed to the hex parser.
    pub open spec fn parsable(&self) -> bool {
        &&& forall|i: int| 0 <= i < self.colors@.len() ==> hex_input_ok((#[trigger] self.colors@[i]).1@)
        &&& hex_input_ok(self.background@)
        &&& hex_input_ok(self.foreground@)
        &&& hex_input_ok(self.cursor@)
    }

    /// The file describes a complete scheme.
    pub open spec fn complete(&self) -> bool {
        decodes(entry_views(self.colors@), self.background@, self.foreground@, self.cursor@)
    }

    /// `d` is the scheme the file describes.
    pub open spec fn describes(&self, d: ColorDict) -> bool {
        &&& d.wallpaper == self.wallpaper
        &&& d.alpha == self.alpha
        &&& forall|i: int| 0 <= i < 16 ==> Some(#[trigger] d.colors@[i]) == decoded_slot(entry_views(self.colors@), i as nat)
        &&& Some(d.special.background) == text_color(self.background@)
        &&& Some(d.special.foreground) == text_color(self.foreground@)
        &&& Some(d.special.cursor) == text_color(self.cursor@)
    }
}

/// `s` without every trailing `.json`, as `str::trim_end_matches(".json")` gives it.
pub open spec fn without_json(s: Seq<char>) -> Seq<char>
    decreases s.len(),
{
    if s.len() >= 5 && s.subrange(s.len() - 5, s.len() as int) == ".json"@ {
        without_json(s.subrange(0, s.len() - 5))
    } else {
        s
    }
}

/// Normalising a theme name twice changes nothing more: the result never
/// ends in `.json`.
pub proof fn lemma_theme_name_idempotent(s: Seq<char>)
    ensures
        without_json(without_json(s)) == without_json(s),
        !(without_json(s).len() >= 5 && without_json(s).subrange(without_json(s).len() - 5, without_json(s).len() as int) == ".json"@),
    decreases s.len(),
{
    if s.len() >= 5 && s.subrange(s.len() - 5, s.len() as int) == ".json"@ {
        lemma_theme_name_idempotent(s.subrange(0, s.len() - 5));
    }
}

fn ends_with_json(s: &Vec<char>, len: usize) -> (b: bool)
    requires
        len <= s@.len(),
    ensures
        b == (len >= 5 && s@.subrange(len - 5, len as int) == ".json"@),
{
    proof {
        reveal_strlit(".json");
    }
    if len < 5 {
        return false;
    }
    let b = s[len - 5] == '.' && s[len - 4] == 'j' && s[len - 3] == 's' && s[len - 2] == 'o' && s[len - 1] == 'n';
    let ghost sub = s@.subrange(len - 5, len as int);
    assert(".json"@ =~= seq!['.', 'j', 's', 'o', 'n']);
    assert(b ==> sub =~= ".json"@);
    assert(sub == ".json"@ ==> sub[0] == '.' && sub[1] == 'j' && sub[2] == 's' && sub[3] == 'o' && sub[4] == 'n');
    b
}

/// Normalise a theme name: strip any `.json` suffix the user typed.
pub fn theme_name(name: &str) -> (n: String)
    ensures
        n@ == without_json(name@),
{
    let cs = chars_of(name);
    let mut len: usize = cs.len();
    assert(cs@.subrange(0, len as int) =~= name@);
    while ends_with_json(&cs, len)
        invariant
            len <= cs@.len(),
            without_json(cs@.subrange(0, len as int)) == without_json(name@),
            cs@ == name@,
        decreases len,
    {
        assert(cs@.subrange(0, len as int).subrange(len - 5, len as int) =~= cs@.subrange(len - 5, len as int));
        assert(cs@.subrange(0, len as int).subrange(0, len - 5) =~= cs@.subrange(0, len - 5));
        len = len - 5;
    }
    proof {
        if len >= 5 {
            assert(cs@.subrange(0, len as int).subrange(len - 5, len as int) =~= cs@.subrange(len - 5, len as int));
        }
    }
    let mut out: Vec<char> = Vec::new();
    let mut i: usize = 0;
    while i < len
        invariant
            i <= len <= cs@.len(),
            out@ == cs@.subrange(0, i as int),
        decreases len - i,
    {
        out.push(cs[i]);
        assert(cs@.subrange(0, i + 1) =~= cs@.subrange(0, i as int).push(cs@[i as int]));
        i = i + 1;
    }
    string_of(&out)
}

/// `<name>.json` for a normalised name.
pub open spec fn theme_file_name(name: Seq<char>) -> Seq<char> {
    without_json(name) + ".json"@
}

fn file_name(name: &str) -> (f: String)
    ensures
        f@ == theme_file_name(name@),
{
    let n = theme_name(name);
    let mut cs = chars_of(n.as_str());
    push_str(&mut cs, ".json");
    string_of(&cs)
}

/// Where a user's theme of this name lives: `<themes_dir>/<name>.json`.
pub fn user_theme_path(paths: &Paths, name: &str) -> (p: String)
    ensures
        p@ == path_join(paths.themes_dir@, theme_file_name(name@)),
{
    let f = file_name(name);
    join(paths.themes_dir.as_str(), f.as_str())
}

/// The key of a bundled theme of this name: `<name>.json`.
pub fn bundled_theme_key(name: &str) -> (k: String)
    ensures
        k@ == theme_file_name(name@),
{
    file_name(name)
}

/// Decode a theme file; `None` stands for text that is not a theme file.
/// Any problem gives `ThemeCorrupted(label)`.
pub fn parse_theme(file: Option<ThemeFile>, label: &str) -> (r: Result<ColorDict, RwalError>)
    requires
        file is Some ==> file->0.parsable(),
    ensures
        r is Ok <==> file is Some && file->0.complete(),
        r is Ok ==> file->0.describes(r->Ok_0),
        r is Err ==> r->Err_0 == RwalError::ThemeCorrupted(r->Err_0->ThemeCorrupted_0)
            && r->Err_0->ThemeCorrupted_0@ == label@,
{
    match file {
        None => Err(RwalError::ThemeCorrupted(label.to_string())),
        Some(f) => {
            let ghost g = f;
            let r = parse_color_dict(
                f.wallpaper,
                f.alpha,
                f.background.as_str(),
                f.foreground.as_str(),
                f.cursor.as_str(),
                &f.colors,
                RwalError::ThemeCorrupted(label.to_string()),
            );
            proof {
                if r is Ok {
                    assert(g.describes(r->Ok_0));
                }
            }
            r
        },
    }
}

/// What the lookup of a theme name found.
pub enum ThemeFound {
    /// A file in the user's themes directory: its path, and what parsing its text gave.
    User { path: String, file: Option<ThemeFile> },
    /// A bundled theme: what parsing its text gave.
    Bundled { file: Option<ThemeFile> },
    /// A bundled theme whose bytes are not UTF-8.
    BundledNotText,
    /// No theme of that name.
    Nothing,
}

/// Load a named theme from what its lookup found: a user file is decoded
/// under its path, a bundled one under the theme's name; an unreadable
/// bundled theme or none at all is `ThemeNotFound(name)`.
pub fn load(name: &str, found: ThemeFound) -> (r: Result<ColorDict, RwalError>)
    requires
        match found {
            ThemeFound::User { path, file } => file is Some ==> file->0.parsable(),
            ThemeFound::Bundled { file } => file is Some ==> file->0.parsable(),
            _ => true,
        },
    ensures
        match found {
            ThemeFound::User { path, file } => {
                &&& r is Ok <==> file is Some && file->0.complete()
                &&& r is Ok ==> file->0.describes(r->Ok_0)
                &&& r is Err ==> r->Err_0 == RwalError::ThemeCorrupted(r->Err_0->ThemeCorrupted_0)
                    && r->Err_0->ThemeCorrupted_0@ == path@
            },
            ThemeFound::Bundled { file } => {
                &&& r is Ok <==> file is Some && file->0.complete()
                &&& r is Ok ==> file->0.describes(r->Ok_0)
                &&& r is Err ==> r->Err_0 == RwalError::ThemeCorrupted(r->Err_0->ThemeCorrupted_0)
                    && r->Err_0->ThemeCorrupted_0@ == without_json(name@)
            },
            _ => r is Err && r->Err_0 == RwalError::ThemeNotFound(r->Err_0->ThemeNotFound_0)
                && r->Err_0->ThemeNotFound_0@ == without_json(name@),
        },
{
    let n = theme_name(name);
    match found {
        ThemeFound::User { path, file } => parse_theme(file, path.as_str()),
        ThemeFound::Bundled { file } => parse_theme(file, n.as_str()),
        _ => Err(RwalError::ThemeNotFound(n)),
    }
}

} // verus!

verus! {

// ─── listing ────────────────────────────────────────────────────────────────

/// `a` sorts before or with `b`: lexicographic by code point, the order of
/// `String`'s `Ord` (UTF-8 byte order follows code point order).
pub open spec fn text_le(a: Seq<char>, b: Seq<char>) -> bool
    decreases a.len(),
{
    if a.len() == 0 {
        true
    } else if b.len() == 0 {
        false
    } else if (a[0] as u32) < (b[0] as u32) {
        true
    } else if (a[0] as u32) > (b[0] as u32) {
        false
    } else {
        text_le(a.drop_first(), b.drop_first())
    }
}

/// `x` inserted into `s` before the first entry it sorts before or with.
pub open spec fn insert_text(s: Seq<Seq<char>>, x: Seq<char>) -> Seq<Seq<char>>
    decreases s.len(),
{
    if s.len() == 0 {
        seq![x]
    } else if text_le(x, s[0]) {
        seq![x] + s
    } else {
        seq![s[0]] + insert_text(s.drop_first(), x)
    }
}

/// The texts in ascending order.
pub open spec fn sorted_texts(s: Seq<Seq<char>>) -> Seq<Seq<char>>
    decreases s.len(),
{
    if s.len() == 0 {
        Seq::empty()
    } else {
        insert_text(sorted_texts(s.drop_last()), s.last())
    }
}

/// The texts of a list of strings.
pub open spec fn texts(v: Seq<String>) -> Seq<Seq<char>> {
    Seq::new(v.len(), |i: int| v[i]@)
}

/// Bundled theme names (file names without `.json`) that no user theme overrides.
pub open spec fn unshadowed(bundled: Seq<Seq<char>>, user: Seq<Seq<char>>) -> Seq<Seq<char>> {
    bundled.map_values(|f: Seq<char>| without_json(f)).filter(|n: Seq<char>| !user.contains(n))
}

/// The lines listing the themes: bundled ones marked `(default)`, then the
/// user's marked `(user)`, each group sorted; `no themes found` when there is none.
pub open spec fn theme_lines(bundled: Seq<Seq<char>>, user: Seq<Seq<char>>) -> Seq<Seq<char>> {
    let b = sorted_texts(unshadowed(bundled, user));
    let u = sorted_texts(user);
    b.map_values(|n: Seq<char>| n + " (default)"@) + u.map_values(|n: Seq<char>| n + " (user)"@)
        + (if b.len() == 0 && u.len() == 0 { seq!["no themes found"@] } else { Seq::empty() })
}

fn text_le_exec(a: &str, b: &str) -> (r: bool)
    ensures
        r == text_le(a@, b@),
{
    let x = chars_of(a);
    let y = chars_of(b);
    let mut i: usize = 0;
    assert(x@.skip(0) =~= x@);
    assert(y@.skip(0) =~= y@);
    while i < x.len() && i < y.len() && (x[i] as u32) == (y[i] as u32)
        invariant
            i <= x@.len(),
            i <= y@.len(),
            text_le(a@, b@) == text_le(x@.skip(i as int), y@.skip(i as int)),
            x@ == a@,
            y@ == b@,
        decreases x@.len() - i,
    {
        assert(x@.skip(i as int).drop_first() =~= x@.skip(i + 1));
        assert(y@.skip(i as int).drop_first() =~= y@.skip(i + 1));
        i = i + 1;
    }
    if i == x.len() {
        assert(x@.skip(i as int).len() == 0);
        true
    } else if i == y.len() {
        assert(y@.skip(i as int).len() == 0);
        false
    } else {
        assert(x@.skip(i as int)[0] == x@[i as int]);
        assert(y@.skip(i as int)[0] == y@[i as int]);
        (x[i] as u32) < (y[i] as u32)
    }
}

fn insert_sorted_text(v: &mut Vec<String>, x: String)
    ensures
        texts(final(v)@) == insert_text(texts(old(v)@), x@),
{
    let ghost s0 = texts(v@);
    let mut j: usize = 0;
    assert(s0.skip(0) =~= s0);
    assert(s0.take(0) =~= Seq::<Seq<char>>::empty());
    while j < v.len() && !text_le_exec(x.as_str(), v[j].as_str())
        invariant
            j <= v@.len(),
            v@ == old(v)@,
            s0 == texts(v@),
            insert_text(s0, x@) == texts(v@).take(j as int) + insert_text(texts(v@).skip(j as int), x@),
        decreases v@.len() - j,
    {
        let ghost t = texts(v@).skip(j as int);
        assert(t[0] == v@[j as int]@);
        assert(t.drop_first() =~= texts(v@).skip(j + 1));
        assert(texts(v@).take(j + 1) =~= texts(v@).take(j as int).push(v@[j as int]@));
        assert(insert_text(t, x@) == seq![t[0]] + insert_text(t.drop_first(), x@));
        assert(texts(v@).take(j as int) + insert_text(t, x@) =~= texts(v@).take(j + 1) + insert_text(texts(v@).skip(j + 1), x@));
        j = j + 1;
    }
    proof {
        let t = texts(v@).skip(j as int);
        if j < v@.len() {
            assert(t[0] == v@[j as int]@);
        }
    }
    v.insert(j, x);
    assert(texts(v@) =~= texts(old(v)@).take(j as int) + insert_text(texts(old(v)@).skip(j as int), x@));
}

fn sort_texts(v: Vec<String>) -> (out: Vec<String>)
    ensures
        texts(out@) == sorted_texts(texts(v@)),
{
    let mut out: Vec<String> = Vec::new();
    let mut i: usize = 0;
    while i < v.len()
        invariant
            i <= v@.len(),
            texts(out@) == sorted_texts(texts(v@).take(i as int)),
        decreases v@.len() - i,
    {
        let ghost before = texts(v@).take(i as int);
        insert_sorted_text(&mut out, v[i].clone());
        assert(texts(v@).take(i + 1).drop_last() =~= before);
        assert(texts(v@).take(i + 1).last() == v@[i as int]@);
        i = i + 1;
    }
    assert(texts(v@).take(v@.len() as int) =~= texts(v@));
    out
}

fn contains_text(v: &Vec<String>, x: &str) -> (b: bool)
    ensures
        b == texts(v@).contains(x@),
{
    let mut i: usize = 0;
    while i < v.len()
        invariant
            i <= v@.len(),
            forall|q: int| 0 <= q < i ==> v@[q]@ != x@,
        decreases v@.len() - i,
    {
        if crate::text::str_eq(v[i].as_str(), x) {
            assert(texts(v@)[i as int] == x@);
            return true;
        }
        i = i + 1;
    }
    assert forall|q: int| 0 <= q < texts(v@).len() implies texts(v@)[q] != x@ by {
        assert(texts(v@)[q] == v@[q]@);
    }
    false
}

fn suffixed(name: &str, tag: &str) -> (s: String)
    ensures
        s@ == name@ + tag@,
{
    let mut cs = chars_of(name);
    push_str(&mut cs, tag);
    string_of(&cs)
}

fn tagged_all(out: &mut Vec<String>, names: &Vec<String>, tag: &str)
    ensures
        texts(final(out)@) == texts(old(out)@) + texts(names@).map_values(|n: Seq<char>| n + tag@),
{
    let mut i: usize = 0;
    while i < names.len()
        invariant
            i <= names@.len(),
            texts(out@) == texts(old(out)@) + texts(names@).take(i as int).map_values(|n: Seq<char>| n + tag@),
        decreases names@.len() - i,
    {
        let ghost before = texts(out@);
        out.push(suffixed(names[i].as_str(), tag));
        assert(texts(out@) =~= before.push(names@[i as int]@ + tag@));
        assert(texts(names@).take(i + 1).map_values(|n: Seq<char>| n + tag@)
            =~= texts(names@).take(i as int).map_values(|n: Seq<char>| n + tag@).push(names@[i as int]@ + tag@));
        i = i + 1;
    }
    assert(texts(names@).take(names@.len() as int) =~= texts(names@));
}

/// The lines listing the available themes: `bundled` are the bundled theme
/// files, `user` the names (file stems) of the user's `.json` themes.
pub fn list_all(bundled: &Vec<String>, user: &Vec<String>) -> (lines: Vec<String>)
    ensures
        texts(lines@) == theme_lines(texts(bundled@), texts(user@)),
{
    let ghost keep = |k: Seq<char>| !texts(user@).contains(k);
    let mut names: Vec<String> = Vec::new();
    let mut i: usize = 0;
    while i < bundled.len()
        invariant
            i <= bundled@.len(),
            keep == (|k: Seq<char>| !texts(user@).contains(k)),
            texts(names@) == texts(bundled@).take(i as int).map_values(|f: Seq<char>| without_json(f)).filter(keep),
        decreases bundled@.len() - i,
    {
        let n = theme_name(bundled[i].as_str());
        let ghost before = texts(names@);
        let ghost m = texts(bundled@).take(i as int).map_values(|f: Seq<char>| without_json(f));
        let ghost m2 = texts(bundled@).take(i + 1).map_values(|f: Seq<char>| without_json(f));
        assert(m2 =~= m.push(n@));
        assert(m2.drop_last() =~= m);
        let found = contains_text(user, n.as_str());
        assert(m2.last() == n@);
        assert(keep(n@) == !found);
        assert(m2.filter(keep) == (if keep(m2.last()) {
            m2.drop_last().filter(keep).push(m2.last())
        } else {
            m2.drop_last().filter(keep)
        })) by {
            reveal(Seq::filter);
        }
        if !found {
            names.push(n);
            assert(texts(names@) =~= before.push(without_json(bundled@[i as int]@)));
        } else {
            assert(texts(names@) =~= before);
        }
        assert(texts(names@) == m2.filter(keep));
        i = i + 1;
    }
    assert(texts(bundled@).take(bundled@.len() as int) =~= texts(bundled@));
    assert(texts(names@) == unshadowed(texts(bundled@), texts(user@)));
    let b = sort_texts(names);
    let u = sort_texts(user.clone());
    let mut lines: Vec<String> = Vec::new();
    tagged_all(&mut lines, &b, " (default)");
    tagged_all(&mut lines, &u, " (user)");
    let ghost before = texts(lines@);
    if b.len() == 0 && u.len() == 0 {
        lines.push("no themes found".to_string());
        assert(texts(lines@) =~= before.push("no themes found"@));
    }
    assert(texts(lines@) =~= theme_lines(texts(bundled@), texts(user@)));
    lines
}

} // verus!

verus! {

/// Every entry sorts before or with every later one.
pub open spec fn texts_sorted(s: Seq<Seq<char>>) -> bool {
    forall|i: int, j: int| 0 <= i <= j < s.len() ==> text_le(#[trigger] s[i], #[trigger] s[j])
}

proof fn lemma_text_le_total(a: Seq<char>, b: Seq<char>)
    ensures
        text_le(a, b) || text_le(b, a),
    decreases a.len(),
{
    if a.len() > 0 && b.len() > 0 && (a[0] as u32) == (b[0] as u32) {
        lemma_text_le_total(a.drop_first(), b.drop_first());
    }
}

proof fn lemma_text_le_trans(a: Seq<char>, b: Seq<char>, c: Seq<char>)
    requires
        text_le(a, b),
        text_le(b, c),
    ensures
        text_le(a, c),
    decreases a.len(),
{
    if a.len() > 0 && b.len() > 0 && c.len() > 0 && (a[0] as u32) == (b[0] as u32) && (b[0] as u32) == (c[0] as u32) {
        lemma_text_le_trans(a.drop_first(), b.drop_first(), c.drop_first());
    }
}

proof fn lemma_insert_text_members(s: Seq<Seq<char>>, x: Seq<char>, k: int)
    requires
        0 <= k < insert_text(s, x).len(),
    ensures
        insert_text(s, x).len() == s.len() + 1,
        insert_text(s, x)[k] == x || exists|m: int| 0 <= m < s.len() && insert_text(s, x)[k] == #[trigger] s[m],
    decreases s.len(),
{
    if s.len() > 0 && !text_le(x, s[0]) && k > 0 {
        lemma_insert_text_members(s.drop_first(), x, k - 1);
        let t = insert_text(s.drop_first(), x);
        if t[k - 1] != x {
            let m = choose|m: int| 0 <= m < s.drop_first().len() && t[k - 1] == #[trigger] s.drop_first()[m];
            assert(s[m + 1] == s.drop_first()[m]);
        }
    } else if s.len() > 0 && !text_le(x, s[0]) {
        lemma_insert_text_members(s.drop_first(), x, 0);
    } else if s.len() > 0 && k > 0 {
        assert(insert_text(s, x)[k] == s[k - 1]);
    }
}

proof fn lemma_insert_text_sorted(s: Seq<Seq<char>>, x: Seq<char>)
    requires
        texts_sorted(s),
    ensures
        texts_sorted(insert_text(s, x)),
        insert_text(s, x).len() == s.len() + 1,
    decreases s.len(),
{
    if s.len() == 0 {
        assert(text_le(x, x)) by { lemma_text_le_total(x, x); }
    } else if text_le(x, s[0]) {
        let r = seq![x] + s;
        assert forall|i: int, j: int| 0 <= i <= j < r.len() implies text_le(#[trigger] r[i], #[trigger] r[j]) by {
            if i == 0 && j == 0 {
                lemma_text_le_total(x, x);
            } else if i == 0 {
                assert(r[j] == s[j - 1]);
                lemma_text_le_trans(x, s[0], s[j - 1]);
            } else {
                assert(r[i] == s[i - 1] && r[j] == s[j - 1]);
            }
        }
    } else {
        let rest = s.drop_first();
        assert(texts_sorted(rest)) by {
            assert forall|i: int, j: int| 0 <= i <= j < rest.len() implies text_le(#[trigger] rest[i], #[trigger] rest[j]) by {
                assert(rest[i] == s[i + 1] && rest[j] == s[j + 1]);
            }
        }
        lemma_insert_text_sorted(rest, x);
        let t = insert_text(rest, x);
        let r = seq![s[0]] + t;
        lemma_text_le_total(x, s[0]);
        assert forall|i: int, j: int| 0 <= i <= j < r.len() implies text_le(#[trigger] r[i], #[trigger] r[j]) by {
            if i == 0 {
                if j == 0 {
                    lemma_text_le_total(s[0], s[0]);
                } else {
                    assert(r[j] == t[j - 1]);
                    lemma_insert_text_members(rest, x, j - 1);
                    if t[j - 1] != x {
                        let m = choose|m: int| 0 <= m < rest.len() && t[j - 1] == #[trigger] rest[m];
                        assert(rest[m] == s[m + 1]);
                    }
                }
            } else {
                assert(r[i] == t[i - 1] && r[j] == t[j - 1]);
            }
        }
        assert(insert_text(s, x) == r);
    }
}

/// Sorting texts yields them in ascending order: each group of the theme
/// listing is printed sorted.
pub proof fn lemma_sorted_texts_sorted(s: Seq<Seq<char>>)
    ensures
        texts_sorted(sorted_texts(s)),
        sorted_texts(s).len() == s.len(),
    decreases s.len(),
{
    if s.len() > 0 {
        lemma_sorted_texts_sorted(s.drop_last());
        lemma_insert_text_sorted(sorted_texts(s.drop_last()), s.last());
    }
}

} // verus!
