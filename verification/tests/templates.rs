use rwal::colors::types::{ColorDict, Rgb, Special};
use rwal::colors::semantic::SemanticRoles;
use rwal::export::templates::{render_template, replace_role_tokens, replace_tokens};

fn dummy_dict() -> ColorDict {
    let mut colors = [Rgb::new(0, 0, 0); 16];
    colors[0] = Rgb::new(10, 10, 10);
    colors[1] = Rgb::new(200, 50, 50);
    colors[15] = Rgb::new(240, 240, 240);

    ColorDict {
        wallpaper: "/home/user/wall.jpg".to_string(),
        alpha: 90,
        special: Special {
            background: Rgb::new(10, 10, 10),
            foreground: Rgb::new(240, 240, 240),
            cursor: Rgb::new(240, 240, 240),
        },
        colors,
    }
}

#[test]
fn test_replace_color_tokens() {
    let dict = dummy_dict();
    let out = replace_tokens("{color0} {color1} {color15}", &dict);
    assert!(out.contains(&dict.colors[0].to_hex()));
    assert!(out.contains(&dict.colors[1].to_hex()));
    assert!(out.contains(&dict.colors[15].to_hex()));
}

#[test]
fn test_replace_special_tokens() {
    let dict = dummy_dict();
    let out = replace_tokens("{background} {foreground} {cursor}", &dict);
    assert!(out.contains(&dict.special.background.to_hex()));
    assert!(out.contains(&dict.special.foreground.to_hex()));
    assert!(out.contains(&dict.special.cursor.to_hex()));
}

#[test]
fn test_replace_wallpaper_and_alpha() {
    let dict = dummy_dict();
    let out = replace_tokens("{wallpaper} {alpha}", &dict);
    assert!(out.contains("/home/user/wall.jpg"));
    assert!(out.contains("90"));
}

#[test]
fn test_no_tokens_unchanged() {
    let dict = dummy_dict();
    let content = "nothing to replace here";
    assert_eq!(replace_tokens(content, &dict), content);
}

#[test]
fn replace_tokens_exact_output() {
    let dict = dummy_dict();
    let out = replace_tokens("a{color1}b{color10}c{color1}{alpha}{nope}", &dict);
    assert_eq!(out, "a#c83232b#000000c#c8323290{nope}");
}

#[test]
fn replace_tokens_color1_does_not_eat_color10() {
    let dict = dummy_dict();
    // {color1} is replaced first; the text of {color10} does not contain "{color1}"
    assert_eq!(replace_tokens("{color10}", &dict), "#000000");
}

fn gray_roles() -> SemanticRoles {
    let g = |v: u8| Rgb::new(v, v, v);
    SemanticRoles {
        background: g(0),
        surface: g(1),
        foreground: g(2),
        cursor: g(3),
        primary: g(4),
        secondary: g(5),
        tertiary: g(6),
        accent: g(7),
        error: g(8),
        success: g(9),
        warning: g(10),
        info: g(11),
        neutral: g(12),
        neutral_variant: g(13),
    }
}

#[test]
fn role_tokens_are_replaced() {
    let roles = gray_roles();
    let out = replace_role_tokens("{surface}|{primary}|{error}|{success}|{neutral}|{neutral_variant}|{background}", &roles);
    assert_eq!(out, "#010101|#040404|#080808|#090909|#0c0c0c|#0d0d0d|{background}");
    assert_eq!(replace_role_tokens("plain text", &roles), "plain text");
}

#[test]
fn render_template_replaces_palette_and_role_tokens() {
    let dict = dummy_dict();
    let roles = gray_roles();
    let out = render_template("{primary} {surface} {error} {success} {color1} {alpha} {wallpaper}", &dict, &roles);
    assert_eq!(out, "#040404 #010101 #080808 #090909 #c83232 90 /home/user/wall.jpg");
    assert_eq!(render_template("plain text", &dict, &roles), "plain text");
}
