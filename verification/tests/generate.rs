use rwal::error::RwalError;
use rwal::export::generate::{expand_home, render_all, render_one, template_not_cached, ConfigMap, TemplateEntry};
use rwal::paths::Paths;

fn entry(template: &str, output: &str) -> TemplateEntry {
    TemplateEntry { template: template.to_string(), output: output.to_string() }
}

fn config() -> ConfigMap {
    ConfigMap {
        templates: vec![
            ("btop".to_string(), entry("btop.theme", "~/.config/btop/theme/rwal.theme")),
            ("rofi".to_string(), entry("colors.rasi", "/etc/rofi/colors.rasi")),
        ],
    }
}

#[test]
fn expand_home_resolves_tilde_slash_only() {
    let home = Some("/home/u".to_string());
    assert_eq!(expand_home("~/.config/x", &home), "/home/u/.config/x");
    assert_eq!(expand_home("~user/x", &home), "~user/x");
    assert_eq!(expand_home("/abs/x", &home), "/abs/x");
    assert_eq!(expand_home("~/", &home), "/home/u/");
    assert_eq!(expand_home("~/.config/x", &None), "~/.config/x");
}

#[test]
fn render_one_plans_the_named_entry() {
    let paths = Paths::from_home("/home/u");
    let plan = render_one(&paths, &config(), "rofi").unwrap();
    assert_eq!(plan.source, "/home/u/.cache/rwal/colors.rasi");
    assert_eq!(plan.output, "/etc/rofi/colors.rasi");
}

#[test]
fn render_one_unknown_entry_errors() {
    let paths = Paths::from_home("/home/u");
    let err = render_one(&paths, &config(), "kitty").err().unwrap();
    assert_eq!(err, RwalError::Custom("entry 'kitty' not found in config-map.toml".to_string()));
}

#[test]
fn render_all_plans_every_entry_in_order() {
    let paths = Paths::from_home("/home/u");
    let plans = render_all(&paths, &config());
    assert_eq!(plans.len(), 2);
    assert_eq!(plans[0].source, "/home/u/.cache/rwal/btop.theme");
    assert!(plans[0].output.ends_with(".config/btop/theme/rwal.theme"));
    assert_eq!(plans[1].source, "/home/u/.cache/rwal/colors.rasi");
}

#[test]
fn template_not_cached_message() {
    let e = template_not_cached(&entry("btop.theme", "x"));
    assert_eq!(
        e.message(),
        "Template 'btop.theme' not found in cache. Ensure it exists in ~/.config/rwal/templates/ and the --template flag was run."
    );
}
