use iro::color::{BaseColorKind, Color, ColorModifiers, HexColor};
use iro::error::ThemeError;
use iro::flat::{JsonTheme, StyleEntry};
use iro::compile::generate_json;
use iro::palette::Palette;
use iro::schema::{Action, Appearance, Meta, Modifier, ModifierPath, Player, Theme, ThemeFamily};

fn empty_mods() -> ColorModifiers {
    ColorModifiers {
        alpha: None,
        lighten: None,
        darken: None,
        saturate: None,
        desaturate: None,
        hue_shift: None,
    }
}

fn lit(hex: &str) -> Color {
    Color {
        base: BaseColorKind::Hex(iro::parse_hex_color(hex).unwrap()),
        modifiers: empty_mods(),
    }
}

fn reference(name: &str) -> Color {
    Color { base: BaseColorKind::PaletteReference(name.to_owned()), modifiers: empty_mods() }
}

fn color_action(c: Color) -> Action {
    Action { color: Some(c), background: None, font_weight: None, font_style: None }
}

fn meta() -> Meta {
    Meta { name: "family".to_owned(), author: "someone".to_owned() }
}

fn theme(name: &str, modifiers: Vec<Modifier>) -> Theme {
    Theme {
        name: name.to_owned(),
        appearance: Appearance::Dark,
        players: Vec::new(),
        modifiers,
    }
}

fn style_entry<'a>(t: &'a JsonTheme, key: &str) -> Option<&'a StyleEntry> {
    t.style.iter().find(|(k, _)| k == key).map(|(_, v)| v)
}

fn syntax_entry<'a>(t: &'a JsonTheme, scope: &str) -> Option<&'a iro::flat::Syntax> {
    match style_entry(t, "syntax") {
        Some(StyleEntry::Syntax(m)) => m.iter().find(|(k, _)| k == scope).map(|(_, v)| v),
        _ => None,
    }
}

#[test]
fn compiles_a_minimal_family() {
    let family = ThemeFamily {
        meta: meta(),
        palette: Palette { colors: vec![("base".to_owned(), lit("#102030ff"))] },
        themes: vec![theme(
            "dark",
            vec![Modifier {
                apply: vec![ModifierPath::Style("editor.background".to_owned())],
                action: color_action(reference("base")),
            }],
        )],
        common: None,
    };
    let out = generate_json(family).unwrap();
    assert_eq!(out.schema, "https://zed.dev/schema/themes/v0.1.0.json");
    assert_eq!(out.meta.name, "family");
    assert_eq!(out.themes.len(), 1);
    let t = &out.themes[0];
    assert_eq!(t.name, "dark");
    match style_entry(t, "editor.background") {
        Some(StyleEntry::Normal(Some(c))) => assert_eq!(*c, HexColor([0x10, 0x20, 0x30, 0xff])),
        other => panic!("unexpected entry: {other:?}"),
    }
}

#[test]
fn later_modifier_overrides_earlier_one() {
    let family = ThemeFamily {
        meta: meta(),
        palette: Palette {
            colors: vec![
                ("red".to_owned(), lit("#ff0000ff")),
                ("blue".to_owned(), lit("#0000ffff")),
            ],
        },
        themes: vec![theme(
            "dark",
            vec![
                Modifier {
                    apply: vec![ModifierPath::Style("a".to_owned())],
                    action: color_action(reference("red")),
                },
                Modifier {
                    apply: vec![ModifierPath::Style("a".to_owned())],
                    action: color_action(reference("blue")),
                },
            ],
        )],
        common: None,
    };
    let out = generate_json(family).unwrap();
    match style_entry(&out.themes[0], "a") {
        Some(StyleEntry::Normal(Some(c))) => assert_eq!(*c, HexColor([0, 0, 0xff, 0xff])),
        other => panic!("unexpected entry: {other:?}"),
    }
}

#[test]
fn player_namespace_cannot_be_styled() {
    let family = ThemeFamily {
        meta: meta(),
        palette: Palette { colors: Vec::new() },
        themes: vec![theme(
            "dark",
            vec![Modifier {
                apply: vec![ModifierPath::Style("player0.cursor".to_owned())],
                action: color_action(lit("#ffffffff")),
            }],
        )],
        common: None,
    };
    match generate_json(family) {
        Err(ThemeError::InvalidTarget { path }) => assert_eq!(path, "player0.cursor"),
        other => panic!("expected an invalid-target report, got {other:?}"),
    }
}

#[test]
fn dangling_reference_aborts_compilation() {
    let family = ThemeFamily {
        meta: meta(),
        palette: Palette { colors: Vec::new() },
        themes: vec![theme(
            "dark",
            vec![Modifier {
                apply: vec![ModifierPath::Style("a".to_owned())],
                action: color_action(reference("ghostly")),
            }],
        )],
        common: None,
    };
    match generate_json(family) {
        Err(ThemeError::MissingReference { name }) => assert_eq!(name, "ghostly"),
        other => panic!("expected a missing-reference report, got {other:?}"),
    }
}

#[test]
fn syntax_fields_merge_per_scope() {
    let m1 = Modifier {
        apply: vec![ModifierPath::Syntax("keyword".to_owned())],
        action: Action {
            color: Some(lit("#ff0000ff")),
            background: None,
            font_weight: Some(700),
            font_style: Some("italic".to_owned()),
        },
    };
    // A later background-only action adds its field and leaves every
    // field it does not carry intact.
    let m2 = Modifier {
        apply: vec![ModifierPath::Syntax("keyword".to_owned())],
        action: Action {
            color: None,
            background: Some(lit("#00ff00ff")),
            font_weight: None,
            font_style: None,
        },
    };
    let family = ThemeFamily {
        meta: meta(),
        palette: Palette { colors: Vec::new() },
        themes: vec![theme("dark", vec![m1, m2])],
        common: None,
    };
    let out = generate_json(family).unwrap();
    let syn = syntax_entry(&out.themes[0], "keyword").unwrap();
    assert_eq!(syn.color, Some(HexColor([0xff, 0, 0, 0xff])));
    assert_eq!(syn.background, Some(HexColor([0, 0xff, 0, 0xff])));
    assert_eq!(syn.font_weight, Some(700));
    assert_eq!(syn.font_style, Some("italic".to_owned()));
}

#[test]
fn later_font_field_overrides_only_its_own_field() {
    let m1 = Modifier {
        apply: vec![ModifierPath::Syntax("keyword".to_owned())],
        action: Action {
            color: None,
            background: None,
            font_weight: Some(400),
            font_style: Some("italic".to_owned()),
        },
    };
    let m2 = Modifier {
        apply: vec![ModifierPath::Syntax("keyword".to_owned())],
        action: Action {
            color: None,
            background: None,
            font_weight: Some(700),
            font_style: None,
        },
    };
    let family = ThemeFamily {
        meta: meta(),
        palette: Palette { colors: Vec::new() },
        themes: vec![theme("dark", vec![m1, m2])],
        common: None,
    };
    let out = generate_json(family).unwrap();
    let syn = syntax_entry(&out.themes[0], "keyword").unwrap();
    assert_eq!(syn.font_weight, Some(700));
    assert_eq!(syn.font_style, Some("italic".to_owned()));
}

#[test]
fn common_theme_is_applied_underneath() {
    let common = theme(
        "common",
        vec![Modifier {
            apply: vec![ModifierPath::Style("a".to_owned())],
            action: color_action(lit("#01010101")),
        }],
    );
    let dark = theme(
        "dark",
        vec![Modifier {
            apply: vec![ModifierPath::Style("a".to_owned())],
            action: color_action(lit("#02020202")),
        }],
    );
    let family = ThemeFamily {
        meta: meta(),
        palette: Palette { colors: Vec::new() },
        themes: vec![dark],
        common: Some(common),
    };
    let out = generate_json(family).unwrap();
    // The theme's own modifier comes later and wins over the shared one.
    match style_entry(&out.themes[0], "a") {
        Some(StyleEntry::Normal(Some(c))) => assert_eq!(*c, HexColor([2, 2, 2, 2])),
        other => panic!("unexpected entry: {other:?}"),
    }
}

#[test]
fn players_are_translated_through_the_palette() {
    let player = Player {
        cursor: Some(reference("base")),
        background: None,
        selection: Some(lit("#05060708")),
    };
    let family = ThemeFamily {
        meta: meta(),
        palette: Palette { colors: vec![("base".to_owned(), lit("#0a0b0cff"))] },
        themes: vec![Theme {
            name: "dark".to_owned(),
            appearance: Appearance::Light,
            players: vec![player],
            modifiers: Vec::new(),
        }],
        common: None,
    };
    let out = generate_json(family).unwrap();
    match style_entry(&out.themes[0], "players") {
        Some(StyleEntry::Players(ps)) => {
            assert_eq!(ps.len(), 1);
            assert_eq!(ps[0].cursor, Some(HexColor([0x0a, 0x0b, 0x0c, 0xff])));
            assert_eq!(ps[0].background, None);
            assert_eq!(ps[0].selection, Some(HexColor([5, 6, 7, 8])));
        },
        other => panic!("unexpected entry: {other:?}"),
    }
}

#[test]
fn cyclic_palette_aborts_whole_family() {
    let family = ThemeFamily {
        meta: meta(),
        palette: Palette { colors: vec![("a".to_owned(), reference("a"))] },
        themes: vec![theme("dark", Vec::new())],
        common: None,
    };
    assert!(matches!(generate_json(family), Err(ThemeError::SelfCycle { .. })));
}
