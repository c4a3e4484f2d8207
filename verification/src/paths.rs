//! Where rwal keeps its files:
//!
//! ```text
//! ~/.cache/rwal/colors.json       active color dict
//! ~/.cache/rwal/sequences         OSC sequence file (sourced on login)
//! ~/.cache/rwal/schemes/          per-image cached palettes
//! ~/.config/rwal/templates/       user templates
//! ~/.config/rwal/themes/          saved named themes
//! ```
//!
//! Paths are held as text; joining follows `PathBuf::push` on Unix.
use vstd::prelude::*;
use crate::error::RwalError;
use crate::text::{chars_of, push_chars, push_str, string_of};

verus! {

/// `base` joined with `part` the way `PathBuf::push` does it on Unix: an
/// absolute `part` replaces `base`; otherwise a `/` separates the two unless
/// `base` is empty or already ends with one.
pub open spec fn path_join(base: Seq<char>, part: Seq<char>) -> Seq<char> {
    if part.len() > 0 && part[0] == '/' {
        part
    } else if base.len() == 0 || base.last() == '/' {
        base + part
    } else {
        base + seq!['/'] + part
    }
}

/// Join two paths (see `path_join`).
pub fn join(base: &str, part: &str) -> (p: String)
    ensures
        p@ == path_join(base@, part@),
{
    let b = chars_of(base);
    let q = chars_of(part);
    if q.len() > 0 && q[0] == '/' {
        return string_of(&q);
    }
    let mut out = b.clone();
    if b.len() > 0 && b[b.len() - 1] != '/' {
        out.push('/');
    }
    push_chars(&mut out, &q);
    assert(b@.len() > 0 ==> b@.last() == b@[b@.len() - 1]);
    string_of(&out)
}

/// The home directory of the current user, as text (bytes that are not
/// UTF-8 become U+FFFD); `None` when it cannot be found.
/// Calls `dirs::home_dir`, which consults the environment and the password
/// database, so nothing is stated of the result.
#[verifier::external_body]
pub(crate) fn home_dir() -> (h: Option<String>) {
    match dirs::home_dir() {
        Some(p) => Some(p.to_string_lossy().into_owned()),
        None => None,
    }
}

/// All canonical paths used by rwal, derived from the home directory.
pub struct Paths {
    // ~/.cache/rwal/
    pub cache_dir: String,
    pub colors_json: String,
    pub sequences: String,
    pub schemes_dir: String,
    // ~/.config/rwal/
    pub config_dir: String,
    pub templates_dir: String,
    pub themes_dir: String,
    pub colorschemes_dir: String,
    /// The template-to-destination mapping file.
    pub config_map: String,
}

/// `~/.cache/rwal` for a given home.
pub open spec fn cache_dir_of(home: Seq<char>) -> Seq<char> {
    path_join(path_join(home, ".cache"@), "rwal"@)
}

/// `~/.config/rwal` for a given home.
pub open spec fn config_dir_of(home: Seq<char>) -> Seq<char> {
    path_join(path_join(home, ".config"@), "rwal"@)
}

impl Paths {
    /// Every path, as derived from `home`.
    pub open spec fn derived_from(&self, home: Seq<char>) -> bool {
        let cache = cache_dir_of(home);
        let config = config_dir_of(home);
        &&& self.cache_dir@ == cache
        &&& self.colors_json@ == path_join(cache, "colors.json"@)
        &&& self.sequences@ == path_join(cache, "sequences"@)
        &&& self.schemes_dir@ == path_join(cache, "schemes"@)
        &&& self.config_dir@ == config
        &&& self.templates_dir@ == path_join(config, "templates"@)
        &&& self.themes_dir@ == path_join(config, "themes"@)
        &&& self.colorschemes_dir@ == path_join(config, "colorschemes"@)
        &&& self.config_map@ == path_join(config, "config-map.toml"@)
    }

    /// Resolve all paths from the current user's home directory.
    pub fn resolve() -> (r: Result<Self, RwalError>)
        ensures
            r is Err ==> r->Err_0 == RwalError::HomeDirNotFound,
            r is Ok ==> exists|h: Seq<char>| #[trigger] r->Ok_0.derived_from(h),
    {
        match home_dir() {
            Some(h) => {
                let p = Self::from_home(h.as_str());
                let r: Result<Self, RwalError> = Ok(p);
                assert(r->Ok_0.derived_from(h@));
                r
            },
            None => Err(RwalError::HomeDirNotFound),
        }
    }

    /// Build all paths from an explicit home directory.
    pub fn from_home(home: &str) -> (p: Self)
        ensures
            p.derived_from(home@),
    {
        let cache_dir = join(&join(home, ".cache"), "rwal");
        let config_dir = join(&join(home, ".config"), "rwal");
        Paths {
            colors_json: join(&cache_dir, "colors.json"),
            sequences: join(&cache_dir, "sequences"),
            schemes_dir: join(&cache_dir, "schemes"),
            cache_dir,
            templates_dir: join(&config_dir, "templates"),
            themes_dir: join(&config_dir, "themes"),
            colorschemes_dir: join(&config_dir, "colorschemes"),
            config_map: join(&config_dir, "config-map.toml"),
            config_dir,
        }
    }

    /// Path of a cached color scheme, keyed by a pre-computed hash string:
    /// `<schemes_dir>/<hash>.json`.
    pub fn scheme_cache(&self, hash: &str) -> (p: String)
        ensures
            p@ == path_join(self.schemes_dir@, hash@ + ".json"@),
    {
        let mut name: Vec<char> = chars_of(hash);
        push_str(&mut name, ".json");
        let file = string_of(&name);
        join(&self.schemes_dir, &file)
    }
}

} // verus!

verus! {

/// Whether a path text ends in a separator.
pub open spec fn ends_with_sep(p: Seq<char>) -> bool {
    p.len() > 0 && p.last() == '/'
}

proof fn lemma_suffix_cancel(a: Seq<char>, b: Seq<char>, t: Seq<char>)
    requires
        a + t == b + t,
    ensures
        a == b,
{
    assert((a + t).len() == a.len() + t.len());
    assert((b + t).len() == b.len() + t.len());
    assert(a.len() == b.len());
    assert forall|i: int| 0 <= i < a.len() implies a[i] == b[i] by {
        assert((a + t)[i] == a[i]);
        assert((b + t)[i] == b[i]);
        assert((a + t)[i] == (b + t)[i]);
    }
    assert(a =~= b);
}

proof fn lemma_cache_dir_shape(h: Seq<char>)
    requires
        !ends_with_sep(h),
    ensures
        cache_dir_of(h) == (if h.len() == 0 { Seq::<char>::empty() } else { h + seq!['/'] }) + ".cache/rwal"@,
{
    reveal_strlit(".cache");
    reveal_strlit("rwal");
    reveal_strlit(".cache/rwal");
    let a = path_join(h, ".cache"@);
    assert(a.last() == 'e');
    assert(cache_dir_of(h) =~= (if h.len() == 0 { Seq::<char>::empty() } else { h + seq!['/'] }) + ".cache/rwal"@);
}

/// Different homes (written without a trailing `/`) give different cache
/// paths: the cache directory and colors.json of one user are never those of
/// another.
pub proof fn lemma_homes_distinct(p1: Paths, p2: Paths, h1: Seq<char>, h2: Seq<char>)
    requires
        p1.derived_from(h1),
        p2.derived_from(h2),
        h1 != h2,
        !ends_with_sep(h1),
        !ends_with_sep(h2),
    ensures
        p1.cache_dir@ != p2.cache_dir@,
        p1.colors_json@ != p2.colors_json@,
{
    reveal_strlit("colors.json");
    reveal_strlit(".cache/rwal");
    lemma_cache_dir_shape(h1);
    lemma_cache_dir_shape(h2);
    let t = ".cache/rwal"@;
    let pre1 = if h1.len() == 0 { Seq::<char>::empty() } else { h1 + seq!['/'] };
    let pre2 = if h2.len() == 0 { Seq::<char>::empty() } else { h2 + seq!['/'] };
    if p1.cache_dir@ == p2.cache_dir@ {
        lemma_suffix_cancel(pre1, pre2, t);
        assert(pre1.len() == pre2.len());
        if h1.len() > 0 && h2.len() > 0 {
            assert(h1 =~= pre1.drop_last());
            assert(h2 =~= pre2.drop_last());
        } else if h1.len() == 0 && h2.len() == 0 {
            assert(h1 =~= h2);
        }
        assert(false);
    }
    let c1 = p1.cache_dir@;
    let c2 = p2.cache_dir@;
    assert(c1.last() == 'l');
    assert(c2.last() == 'l');
    assert(p1.colors_json@ =~= c1 + seq!['/'] + "colors.json"@);
    assert(p2.colors_json@ =~= c2 + seq!['/'] + "colors.json"@);
    if p1.colors_json@ == p2.colors_json@ {
        assert(c1 + (seq!['/'] + "colors.json"@) =~= p1.colors_json@);
        assert(c2 + (seq!['/'] + "colors.json"@) =~= p2.colors_json@);
        lemma_suffix_cancel(c1, c2, seq!['/'] + "colors.json"@);
    }
}

/// A hash without `/` names a file directly inside the schemes directory:
/// `<schemes_dir>/<hash>.json`; distinct such hashes name distinct files.
pub proof fn lemma_scheme_cache_layout(p: Paths, h1: Seq<char>, h2: Seq<char>)
    requires
        p.schemes_dir@.len() > 0,
        !ends_with_sep(p.schemes_dir@),
        !h1.contains('/'),
        !h2.contains('/'),
    ensures
        path_join(p.schemes_dir@, h1 + ".json"@) == p.schemes_dir@ + seq!['/'] + h1 + ".json"@,
        h1 != h2 ==> path_join(p.schemes_dir@, h1 + ".json"@) != path_join(p.schemes_dir@, h2 + ".json"@),
{
    reveal_strlit(".json");
    let d = p.schemes_dir@;
    if h1.len() > 0 {
        assert((h1 + ".json"@)[0] == h1[0]);
    } else {
        assert((h1 + ".json"@)[0] == '.');
    }
    if h2.len() > 0 {
        assert((h2 + ".json"@)[0] == h2[0]);
    } else {
        assert((h2 + ".json"@)[0] == '.');
    }
    assert(path_join(d, h1 + ".json"@) =~= d + seq!['/'] + h1 + ".json"@);
    assert(path_join(d, h2 + ".json"@) =~= d + seq!['/'] + h2 + ".json"@);
    if h1 != h2 && d + seq!['/'] + h1 + ".json"@ == d + seq!['/'] + h2 + ".json"@ {
        lemma_suffix_cancel(d + seq!['/'] + h1, d + seq!['/'] + h2, ".json"@);
        let k: int = d.len() as int + 1;
        assert(h1 =~= (d + seq!['/'] + h1).skip(k));
        assert(h2 =~= (d + seq!['/'] + h2).skip(k));
    }
}

/// Different cache keys give different scheme-cache paths: for keys that do
/// not start with `/` (as no hex digest does), `Paths::scheme_cache` is
/// injective, whatever the schemes directory is.
pub proof fn lemma_scheme_cache_injective(p: Paths, h1: Seq<char>, h2: Seq<char>)
    requires
        h1.len() == 0 || h1[0] != '/',
        h2.len() == 0 || h2[0] != '/',
        h1 != h2,
    ensures
        path_join(p.schemes_dir@, h1 + ".json"@) != path_join(p.schemes_dir@, h2 + ".json"@),
{
    reveal_strlit(".json");
    let d = p.schemes_dir@;
    let x1 = h1 + ".json"@;
    let x2 = h2 + ".json"@;
    if h1.len() > 0 { assert(x1[0] == h1[0]); } else { assert(x1[0] == '.'); }
    if h2.len() > 0 { assert(x2[0] == h2[0]); } else { assert(x2[0] == '.'); }
    let pre = if d.len() == 0 || d.last() == '/' { d } else { d + seq!['/'] };
    assert(path_join(d, x1) =~= pre + x1);
    assert(path_join(d, x2) =~= pre + x2);
    if pre + x1 == pre + x2 {
        assert(x1 =~= (pre + x1).skip(pre.len() as int));
        assert(x2 =~= (pre + x2).skip(pre.len() as int));
        lemma_suffix_cancel(h1, h2, ".json"@);
    }
}

} // verus!
