use iro::color::{BaseColorKind, HexColor};
use iro::decompile::generate_kdl;
use iro::flat::{JsonTheme, Player, StyleEntry, Syntax, ThemeFamily as FlatFamily};
use iro::compile::generate_json;
use iro::schema::{Appearance, Meta};

fn meta() -> Meta {
    Meta { name: "family".to_owned(), author: "someone".to_owned() }
}

fn flat_theme(name: &str, style: Vec<(String, StyleEntry)>) -> JsonTheme {
    JsonTheme { name: name.to_owned(), appearance: Appearance::Dark, style }
}

fn simple_flat_theme(name: &str, color: HexColor) -> JsonTheme {
    flat_theme(
        name,
        vec![
            (
                "players".to_owned(),
                StyleEntry::Players(vec![Player {
                    cursor: Some(color),
                    background: None,
                    selection: None,
                }]),
            ),
            (
                "syntax".to_owned(),
                StyleEntry::Syntax(vec![(
                    "keyword".to_owned(),
                    Syntax {
                        color: Some(color),
                        background: None,
                        font_weight: Some(700),
                        font_style: Some("italic".to_owned()),
                    },
                )]),
            ),
            ("editor.background".to_owned(), StyleEntry::Normal(Some(color))),
        ],
    )
}

#[test]
fn no_common_theme_for_one_variant() {
    let family = FlatFamily {
        schema: String::new(),
        meta: meta(),
        themes: vec![simple_flat_theme("only", HexColor([10, 20, 30, 255]))],
    };
    let authored = generate_kdl(family);
    assert!(authored.common.is_none());
    assert_eq!(authored.themes.len(), 1);
    assert_eq!(authored.themes[0].name, "only");
}

#[test]
fn no_common_theme_for_three_variants() {
    let family = FlatFamily {
        schema: String::new(),
        meta: meta(),
        themes: vec![
            simple_flat_theme("a", HexColor([1, 2, 3, 255])),
            simple_flat_theme("b", HexColor([4, 5, 6, 255])),
            simple_flat_theme("c", HexColor([7, 8, 9, 255])),
        ],
    };
    let authored = generate_kdl(family);
    assert!(authored.common.is_none());
    assert_eq!(authored.themes.len(), 3);
    let names: Vec<&str> = authored.themes.iter().map(|t| t.name.as_str()).collect();
    assert_eq!(names, vec!["a", "b", "c"]);
}

#[test]
fn two_variants_get_a_common_theme() {
    let shared = HexColor([200, 40, 40, 255]);
    let family = FlatFamily {
        schema: String::new(),
        meta: meta(),
        themes: vec![
            simple_flat_theme("light", shared),
            simple_flat_theme("dark", shared),
        ],
    };
    let authored = generate_kdl(family);
    let common = authored.common.expect("two variants must produce a common theme");
    assert_eq!(common.name, "common");
    assert_eq!(authored.themes.len(), 2);
}

#[test]
fn palette_entries_are_literal_and_named() {
    let family = FlatFamily {
        schema: String::new(),
        meta: meta(),
        themes: vec![simple_flat_theme("only", HexColor([250, 250, 250, 255]))],
    };
    let authored = generate_kdl(family);
    assert!(!authored.palette.colors.is_empty());
    for (name, color) in &authored.palette.colors {
        assert!(!name.is_empty());
        assert!(matches!(color.base, BaseColorKind::Hex(_)));
    }
}

#[test]
fn colors_survive_a_round_trip() {
    let color = HexColor([180, 33, 99, 255]);
    let translucent = HexColor([180, 33, 99, 128]);
    let input = FlatFamily {
        schema: String::new(),
        meta: meta(),
        themes: vec![flat_theme(
            "only",
            vec![
                (
                    "players".to_owned(),
                    StyleEntry::Players(vec![Player {
                        cursor: Some(color),
                        background: Some(translucent),
                        selection: None,
                    }]),
                ),
                (
                    "syntax".to_owned(),
                    StyleEntry::Syntax(vec![(
                        "keyword".to_owned(),
                        Syntax {
                            color: Some(translucent),
                            background: Some(color),
                            font_weight: None,
                            font_style: None,
                        },
                    )]),
                ),
                ("editor.foreground".to_owned(), StyleEntry::Normal(Some(color))),
            ],
        )],
    };
    let authored = generate_kdl(input);
    let compiled = generate_json(authored).expect("decompiled family must compile again");
    assert_eq!(compiled.themes.len(), 1);
    let theme = &compiled.themes[0];

    let entry = theme.style.iter().find(|(k, _)| k == "editor.foreground").unwrap();
    match &entry.1 {
        StyleEntry::Normal(Some(c)) => assert_eq!(*c, color),
        other => panic!("unexpected entry: {other:?}"),
    }
    let players = theme.style.iter().find(|(k, _)| k == "players").unwrap();
    match &players.1 {
        StyleEntry::Players(ps) => {
            assert_eq!(ps[0].cursor, Some(color));
            assert_eq!(ps[0].background, Some(translucent));
        },
        other => panic!("unexpected entry: {other:?}"),
    }
    let syntax = theme.style.iter().find(|(k, _)| k == "syntax").unwrap();
    match &syntax.1 {
        StyleEntry::Syntax(scopes) => {
            let kw = &scopes.iter().find(|(k, _)| k == "keyword").unwrap().1;
            assert_eq!(kw.color, Some(translucent));
            assert_eq!(kw.background, Some(color));
        },
        other => panic!("unexpected entry: {other:?}"),
    }
}

#[test]
fn font_attributes_survive_a_round_trip() {
    let color = HexColor([10, 120, 240, 255]);
    let input = FlatFamily {
        schema: String::new(),
        meta: meta(),
        themes: vec![flat_theme(
            "only",
            vec![(
                "syntax".to_owned(),
                StyleEntry::Syntax(vec![(
                    "keyword".to_owned(),
                    Syntax {
                        color: Some(color),
                        background: None,
                        font_weight: Some(700),
                        font_style: Some("italic".to_owned()),
                    },
                )]),
            )],
        )],
    };
    let authored = generate_kdl(input);
    let compiled = generate_json(authored).expect("decompiled family must compile again");
    let theme = &compiled.themes[0];
    let syntax = theme.style.iter().find(|(k, _)| k == "syntax").unwrap();
    match &syntax.1 {
        StyleEntry::Syntax(scopes) => {
            let kw = &scopes.iter().find(|(k, _)| k == "keyword").unwrap().1;
            assert_eq!(kw.color, Some(color));
            assert_eq!(kw.font_weight, Some(700));
            assert_eq!(kw.font_style, Some("italic".to_owned()));
        }
        other => panic!("unexpected entry: {other:?}"),
    }
}
