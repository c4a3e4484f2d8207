//! `config-map.toml`: which cached template is linked to which destination.
//! The file is parsed and the links are made outside the library; here is
//! what each entry resolves to.
use vstd::prelude::*;
use crate::error::{joined3, RwalError};
use crate::paths::{home_dir, join, path_join, Paths};
use crate::text::str_eq;

verus! {

/// One `[app]` table of config-map.toml.
pub struct TemplateEntry {
    /// The name of the template file in ~/.config/rwal/templates/ (e.g. "btop.theme").
    pub template: String,
    /// Where the rendered template is linked to (a leading `~/` means the home directory).
    pub output: String,
}

/// The whole config-map.toml: app name to entry, each name once.
pub struct ConfigMap {
    pub templates: Vec<(String, TemplateEntry)>,
}

impl ConfigMap {
    /// No app name occurs twice.
    pub open spec fn well_formed(&self) -> bool {
        forall|i: int, j: int|
            0 <= i < j < self.templates@.len() ==> (#[trigger] self.templates@[i]).0@ != (#[trigger] self.templates@[j]).0@
    }
}

/// A link to make: `output` should point at `source`.
pub struct SymlinkPlan {
    /// The rendered template in the cache directory.
    pub source: String,
    /// The destination, with `~/` expanded.
    pub output: String,
}

/// `v` holds, entry by entry, the plans of `entries` under the home `h`.
pub open spec fn all_planned(paths: Paths, entries: Seq<(String, TemplateEntry)>, v: Seq<SymlinkPlan>, h: Option<Seq<char>>) -> bool {
    &&& v.len() == entries.len()
    &&& forall|i: int| 0 <= i < v.len() ==> ((#[trigger] v[i]).source@, v[i].output@) == plan_for(paths, entries[i].1, h)
}

/// A path with a leading `~/` resolved against `home`, when one is known.
pub open spec fn expanded(path: Seq<char>, home: Option<Seq<char>>) -> Seq<char> {
    if path.len() >= 2 && path[0] == '~' && path[1] == '/' && home is Some {
        path_join(home->0, path.skip(2))
    } else {
        path
    }
}

/// The text of an optional home directory.
pub open spec fn home_view(h: Option<String>) -> Option<Seq<char>> {
    match h {
        Some(s) => Some(s@),
        None => None,
    }
}

/// The plan for one entry, given the home directory that was found.
pub open spec fn plan_for(paths: Paths, entry: TemplateEntry, home: Option<Seq<char>>) -> (Seq<char>, Seq<char>) {
    (path_join(paths.cache_dir@, entry.template@), expanded(entry.output@, home))
}

/// Resolve a leading `~/` against `home`.
pub fn expand_home(path: &str, home: &Option<String>) -> (p: String)
    ensures
        p@ == expanded(path@, home_view(*home)),
{
    let cs = crate::text::chars_of(path);
    if cs.len() >= 2 && cs[0] == '~' && cs[1] == '/' {
        match home {
            Some(h) => {
                let mut rest: Vec<char> = Vec::new();
                let mut i: usize = 2;
                while i < cs.len()
                    invariant
                        2 <= i <= cs@.len(),
                        rest@ == cs@.subrange(2, i as int),
                    decreases cs@.len() - i,
                {
                    rest.push(cs[i]);
                    assert(cs@.subrange(2, i + 1) =~= cs@.subrange(2, i as int).push(cs@[i as int]));
                    i = i + 1;
                }
                assert(rest@ =~= path@.skip(2));
                let r = crate::text::string_of(&rest);
                return join(h.as_str(), r.as_str());
            },
            None => {},
        }
    }
    path.to_string()
}

/// Resolve a leading `~/` against the current user's home directory.
pub fn resolve_path(path: &str) -> (p: String)
    ensures
        exists|h: Option<Seq<char>>| p@ == expanded(path@, h),
{
    let home = home_dir();
    let p = expand_home(path, &home);
    let ghost h = home_view(home);
    assert(p@ == expanded(path@, h));
    p
}

/// Find an entry by app name.
fn find_entry<'a>(config: &'a ConfigMap, name: &str) -> (r: Option<&'a TemplateEntry>)
    ensures
        r is None <==> forall|i: int| 0 <= i < config.templates@.len() ==> (#[trigger] config.templates@[i]).0@ != name@,
        r is Some ==> exists|i: int| 0 <= i < config.templates@.len() && (#[trigger] config.templates@[i]).0@ == name@
            && config.templates@[i].1 == *r->0,
{
    let mut i: usize = 0;
    while i < config.templates.len()
        invariant
            i <= config.templates@.len(),
            forall|q: int| 0 <= q < i ==> (#[trigger] config.templates@[q]).0@ != name@,
        decreases config.templates@.len() - i,
    {
        if str_eq(config.templates[i].0.as_str(), name) {
            return Some(&config.templates[i].1);
        }
        i = i + 1;
    }
    None
}

/// The plan of one entry with the given home.
fn plan(paths: &Paths, entry: &TemplateEntry, home: &Option<String>) -> (p: SymlinkPlan)
    ensures
        (p.source@, p.output@) == plan_for(*paths, *entry, home_view(*home)),
{
    SymlinkPlan {
        source: join(paths.cache_dir.as_str(), entry.template.as_str()),
        output: expand_home(entry.output.as_str(), home),
    }
}

/// The link for the single entry `name`, or an error when config-map.toml has no such entry.
pub fn render_one(paths: &Paths, config: &ConfigMap, name: &str) -> (r: Result<SymlinkPlan, RwalError>)
    requires
        config.well_formed(),
    ensures
        r is Err <==> forall|i: int| 0 <= i < config.templates@.len() ==> (#[trigger] config.templates@[i]).0@ != name@,
        r is Err ==> r->Err_0 == RwalError::Custom(r->Err_0->Custom_0)
            && r->Err_0->Custom_0@ == "entry '"@ + name@ + "' not found in config-map.toml"@,
        r is Ok ==> exists|i: int, h: Option<Seq<char>>| 0 <= i < config.templates@.len()
            && config.templates@[i].0@ == name@
            && (r->Ok_0.source@, r->Ok_0.output@) == #[trigger] plan_for(*paths, config.templates@[i].1, h),
{
    match find_entry(config, name) {
        None => Err(RwalError::Custom(joined3("entry '", name, "' not found in config-map.toml"))),
        Some(entry) => {
            let home = home_dir();
            let p = plan(paths, entry, &home);
            let ghost h = home_view(home);
            assert((p.source@, p.output@) == plan_for(*paths, *entry, h));
            Ok(p)
        },
    }
}

/// The links for every entry of config-map.toml, in its order.
pub fn render_all(paths: &Paths, config: &ConfigMap) -> (v: Vec<SymlinkPlan>)
    ensures
        exists|h: Option<Seq<char>>| #[trigger] all_planned(*paths, config.templates@, v@, h),
{
    let home = home_dir();
    let ghost h = home_view(home);
    let mut v: Vec<SymlinkPlan> = Vec::new();
    let mut i: usize = 0;
    while i < config.templates.len()
        invariant
            i <= config.templates@.len(),
            h == home_view(home),
            v@.len() == i,
            forall|q: int| 0 <= q < i ==>
                ((#[trigger] v@[q]).source@, v@[q].output@) == plan_for(*paths, config.templates@[q].1, h),
        decreases config.templates@.len() - i,
    {
        v.push(plan(paths, &config.templates[i].1, &home));
        i = i + 1;
    }
    assert(all_planned(*paths, config.templates@, v@, h));
    v
}

/// The error for an entry whose template was never rendered into the cache.
pub fn template_not_cached(entry: &TemplateEntry) -> (e: RwalError)
    ensures
        e == RwalError::Custom(e->Custom_0),
        e->Custom_0@ == "Template '"@ + entry.template@
            + "' not found in cache. Ensure it exists in ~/.config/rwal/templates/ and the --template flag was run."@,
{
    RwalError::Custom(joined3(
        "Template '",
        entry.template.as_str(),
        "' not found in cache. Ensure it exists in ~/.config/rwal/templates/ and the --template flag was run.",
    ))
}

} // verus!
