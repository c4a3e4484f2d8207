//! The decisions of a run, apart from the work they order: where the color
//! scheme comes from, and which actions follow once it is at hand. The
//! program performs each action in turn.
use vstd::prelude::*;
use crate::cli::Cli;

verus! {

/// Where the scheme of this run comes from.
pub enum SchemeSource {
    /// Extract it from this image (a file or a directory), or take it from the cache.
    Image(String),
    /// Re-read the last scheme and apply it again (`-R`).
    Restore,
    /// Read the last scheme, to render, map, preview or debug with it.
    LastScheme,
}

/// Something to do with the scheme.
#[derive(PartialEq, Eq)]
pub enum Action {
    /// Write colors.json.
    WriteColors,
    /// Write the terminal sequences and recolor the terminal.
    ApplySequences,
    /// Set the wallpaper.
    SetWallpaper,
    /// Show the semantic roles.
    ShowRoles,
    /// Link the rendered template of one config-map.toml entry.
    MapOne(String),
    /// Link the rendered templates of every config-map.toml entry.
    MapAll,
    /// Show the semantic roles and the sixteen slots.
    ShowPreview,
    /// Show the state of config-map.toml.
    ShowDebug,
    /// Render the user templates into the cache.
    RenderTemplates,
}

/// The source the command line selects: an image first, then restore.
pub open spec fn source_of(cli: Cli) -> SchemeSource {
    match cli.image {
        Some(p) => SchemeSource::Image(p),
        None => if cli.restore { SchemeSource::Restore } else { SchemeSource::LastScheme },
    }
}

/// Pick the source of the scheme.
pub fn scheme_source(cli: &Cli) -> (s: SchemeSource)
    ensures
        s == source_of(*cli),
{
    match &cli.image {
        Some(p) => SchemeSource::Image(p.clone()),
        None => if cli.restore { SchemeSource::Restore } else { SchemeSource::LastScheme },
    }
}

/// An action when a condition holds, nothing otherwise.
pub open spec fn when(cond: bool, a: Action) -> Seq<Action> {
    if cond { seq![a] } else { Seq::empty() }
}

/// What writing out and applying a fresh scheme takes: colors.json always,
/// the sequences unless `-n`, the wallpaper with `-w` when the scheme names
/// one, and the roles shown unless `-q`, `-p` or `-d`.
pub open spec fn fresh_actions(cli: Cli, has_wallpaper: bool) -> Seq<Action> {
    seq![Action::WriteColors]
        + when(!cli.noop, Action::ApplySequences)
        + when(cli.wallpaper && has_wallpaper, Action::SetWallpaper)
        + when(!cli.quiet && !cli.preview && !cli.debug, Action::ShowRoles)
}

/// The actions the flags ask for on any scheme: `-r` renders the templates,
/// then `-m` links one entry or all of them (so `-rm` links freshly
/// rendered files), `-p` previews, `-d` debugs.
pub open spec fn flag_actions(cli: Cli) -> Seq<Action> {
    when(cli.render, Action::RenderTemplates)
        + (match cli.map {
        Some(Some(app)) => seq![Action::MapOne(app)],
        Some(None) => seq![Action::MapAll],
        None => Seq::empty(),
    })
        + when(cli.preview, Action::ShowPreview)
        + when(cli.debug, Action::ShowDebug)
}

/// The actions that follow, in order: a freshly obtained or restored scheme
/// (`fresh`) is first written out and applied; then come the flags' actions.
pub open spec fn actions_for(cli: Cli, fresh: bool, has_wallpaper: bool) -> Seq<Action> {
    (if fresh { fresh_actions(cli, has_wallpaper) } else { Seq::empty() }) + flag_actions(cli)
}

fn push_when(v: &mut Vec<Action>, cond: bool, a: Action)
    ensures
        final(v)@ == old(v)@ + when(cond, a),
{
    if cond {
        v.push(a);
    }
    assert(v@ =~= old(v)@ + when(cond, a));
}

fn fresh_part(cli: &Cli, has_wallpaper: bool) -> (v: Vec<Action>)
    ensures
        v@ == fresh_actions(*cli, has_wallpaper),
{
    let mut v: Vec<Action> = Vec::new();
    v.push(Action::WriteColors);
    assert(v@ =~= seq![Action::WriteColors]);
    push_when(&mut v, !cli.noop, Action::ApplySequences);
    push_when(&mut v, cli.wallpaper && has_wallpaper, Action::SetWallpaper);
    push_when(&mut v, !cli.quiet && !cli.preview && !cli.debug, Action::ShowRoles);
    v
}

fn flag_part(cli: &Cli) -> (v: Vec<Action>)
    ensures
        v@ == flag_actions(*cli),
{
    let mut v: Vec<Action> = Vec::new();
    push_when(&mut v, cli.render, Action::RenderTemplates);
    let ghost rendered = v@;
    match &cli.map {
        Some(Some(app)) => v.push(Action::MapOne(app.clone())),
        Some(None) => v.push(Action::MapAll),
        None => {},
    }
    assert(v@ =~= rendered + match cli.map {
        Some(Some(app)) => seq![Action::MapOne(app)],
        Some(None) => seq![Action::MapAll],
        None => Seq::<Action>::empty(),
    });
    push_when(&mut v, cli.preview, Action::ShowPreview);
    push_when(&mut v, cli.debug, Action::ShowDebug);
    v
}

/// List the actions that follow once the scheme is at hand.
pub fn follow_up(cli: &Cli, fresh: bool, has_wallpaper: bool) -> (v: Vec<Action>)
    ensures
        v@ == actions_for(*cli, fresh, has_wallpaper),
{
    let mut v: Vec<Action> = if fresh { fresh_part(cli, has_wallpaper) } else { Vec::new() };
    let mut w = flag_part(cli);
    v.append(&mut w);
    v
}

} // verus!
