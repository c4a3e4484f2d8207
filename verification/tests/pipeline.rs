use rwal::cli::Cli;
use rwal::pipeline::{follow_up, scheme_source, Action, SchemeSource};
use rwal::wallpaper::{pick_setter, wallpaper_args, Platform, Setter};

fn cli() -> Cli {
    Cli {
        image: None,
        restore: false,
        preview: false,
        debug: false,
        render: false,
        map: None,
        light: false,
        wallpaper: false,
        noop: false,
        quiet: false,
        backend: "accurate".to_string(),
        mode: "balanced".to_string(),
    }
}

#[test]
fn validate_requires_an_action() {
    let c = cli();
    assert_eq!(
        c.validate(),
        Err("no action provided — use -i <image>, -R to restore, -m to map, -r to render, -p to preview, or -d to debug"
            .to_string())
    );
    let mut c2 = cli();
    c2.map = Some(None);
    assert_eq!(c2.validate(), Ok(()));
    let mut c3 = cli();
    c3.image = Some("/w".to_string());
    assert!(c3.validate().is_ok());
    let mut c4 = cli();
    c4.light = true;
    c4.quiet = true;
    assert!(c4.validate().is_err());
}

#[test]
fn source_prefers_the_image() {
    let mut c = cli();
    c.image = Some("/w.png".to_string());
    c.restore = true;
    assert!(matches!(scheme_source(&c), SchemeSource::Image(p) if p == "/w.png"));
    c.image = None;
    assert!(matches!(scheme_source(&c), SchemeSource::Restore));
    c.restore = false;
    assert!(matches!(scheme_source(&c), SchemeSource::LastScheme));
}

#[test]
fn fresh_scheme_is_written_and_applied() {
    let mut c = cli();
    c.wallpaper = true;
    let v = follow_up(&c, true, true);
    assert!(v == vec![Action::WriteColors, Action::ApplySequences, Action::SetWallpaper, Action::ShowRoles]);
    let v = follow_up(&c, true, false);
    assert!(v == vec![Action::WriteColors, Action::ApplySequences, Action::ShowRoles]);
    c.noop = true;
    c.quiet = true;
    let v = follow_up(&c, true, true);
    assert!(v == vec![Action::WriteColors, Action::SetWallpaper]);
}

#[test]
fn flags_follow_in_order() {
    let mut c = cli();
    c.map = Some(Some("btop".to_string()));
    c.preview = true;
    c.debug = true;
    c.render = true;
    let v = follow_up(&c, false, true);
    assert!(v == vec![Action::RenderTemplates, Action::MapOne("btop".to_string()), Action::ShowPreview, Action::ShowDebug]);
    c.map = Some(None);
    let v = follow_up(&c, true, false);
    assert!(v == vec![
        Action::WriteColors,
        Action::ApplySequences,
        Action::RenderTemplates,
        Action::MapAll,
        Action::ShowPreview,
        Action::ShowDebug
    ]);
}

#[test]
fn wallpaper_setter_choice() {
    assert_eq!(pick_setter(Platform::MacOs, true, true, true), Some(Setter::Finder));
    assert_eq!(pick_setter(Platform::Windows, false, false, false), Some(Setter::PowerShell));
    assert_eq!(pick_setter(Platform::Other, true, true, true), Some(Setter::Sway));
    assert_eq!(pick_setter(Platform::Other, false, true, true), Some(Setter::Hyprpaper));
    assert_eq!(pick_setter(Platform::Other, false, false, true), Some(Setter::Feh));
    assert_eq!(pick_setter(Platform::Other, false, false, false), None);
    assert_eq!(wallpaper_args("feh", "/w.png"), Some(vec!["--bg-fill".to_string(), "/w.png".to_string()]));
    assert_eq!(wallpaper_args("swaybg", "/w.png"), Some(vec!["-i".to_string(), "/w.png".to_string()]));
    assert_eq!(wallpaper_args("xwallpaper", "/w"), Some(vec!["--zoom".to_string(), "/w".to_string()]));
    assert_eq!(wallpaper_args("nitrogen", "/w"), None);
}
