use iro::color::{BaseColorKind, Color, ColorModifiers, HexColor, MOD_ONE};
use iro::error::ThemeError;
use iro::palette::{Palette, ResolvedPalette};

fn empty_mods() -> ColorModifiers {
    ColorModifiers {
        alpha: None,
        lighten: None,
        darken: None,
        saturate: None,
        desaturate: None,
        hue_shift: None,
    }
}

fn lit(hex: &str) -> Color {
    Color {
        base: BaseColorKind::Hex(iro::parse_hex_color(hex).unwrap()),
        modifiers: empty_mods(),
    }
}

fn reference(name: &str) -> Color {
    Color { base: BaseColorKind::PaletteReference(name.to_owned()), modifiers: empty_mods() }
}

fn get<'a>(rp: &'a ResolvedPalette, name: &str) -> Option<&'a HexColor> {
    rp.colors.iter().find(|(n, _)| n == name).map(|(_, c)| c)
}

#[test]
fn resolves_literals_and_chains() {
    let palette = Palette {
        colors: vec![
            ("base".to_owned(), lit("#102030ff")),
            ("mid".to_owned(), reference("base")),
            ("top".to_owned(), reference("mid")),
        ],
    };
    let resolved = palette.resolve().unwrap();
    let expected = HexColor([0x10, 0x20, 0x30, 0xff]);
    assert_eq!(get(&resolved, "base"), Some(&expected));
    assert_eq!(get(&resolved, "mid"), Some(&expected));
    assert_eq!(get(&resolved, "top"), Some(&expected));
}

#[test]
fn resolves_diamond_dependencies() {
    let palette = Palette {
        colors: vec![
            ("a".to_owned(), reference("b")),
            ("b".to_owned(), reference("d")),
            ("c".to_owned(), reference("d")),
            ("d".to_owned(), lit("#01020304")),
        ],
    };
    let resolved = palette.resolve().unwrap();
    let expected = HexColor([1, 2, 3, 4]);
    for name in ["a", "b", "c", "d"] {
        assert_eq!(get(&resolved, name), Some(&expected));
    }
}

#[test]
fn resolution_is_order_independent() {
    let forward = Palette {
        colors: vec![
            ("base".to_owned(), lit("#335577ff")),
            ("fg".to_owned(), reference("base")),
            ("bg".to_owned(), reference("fg")),
        ],
    };
    let backward = Palette {
        colors: vec![
            ("bg".to_owned(), reference("fg")),
            ("fg".to_owned(), reference("base")),
            ("base".to_owned(), lit("#335577ff")),
        ],
    };
    let r1 = forward.resolve().unwrap();
    let r2 = backward.resolve().unwrap();
    for name in ["base", "fg", "bg"] {
        assert_eq!(get(&r1, name), get(&r2, name));
    }
}

#[test]
fn self_cycle_is_reported_distinctly() {
    let palette = Palette { colors: vec![("a".to_owned(), reference("a"))] };
    match palette.resolve() {
        Err(ThemeError::SelfCycle { name }) => assert_eq!(name, "a"),
        other => panic!("expected a self-cycle report, got {other:?}"),
    }
}

#[test]
fn three_cycle_reports_the_full_chain() {
    let palette = Palette {
        colors: vec![
            ("a".to_owned(), reference("b")),
            ("b".to_owned(), reference("c")),
            ("c".to_owned(), reference("a")),
        ],
    };
    match palette.resolve() {
        Err(ThemeError::Cycle { chain }) => {
            assert_eq!(chain.len(), 3);
            let mut sorted = chain.clone();
            sorted.sort();
            assert_eq!(sorted, vec!["a".to_owned(), "b".to_owned(), "c".to_owned()]);
            // Each entry references the next, wrapping around.
            let next = |n: &str| match n {
                "a" => "b",
                "b" => "c",
                _ => "a",
            };
            for i in 0..3 {
                assert_eq!(chain[(i + 1) % 3], next(&chain[i]));
            }
        },
        other => panic!("expected a cycle report, got {other:?}"),
    }
}

#[test]
fn missing_reference_names_the_absent_entry() {
    let palette = Palette {
        colors: vec![
            ("a".to_owned(), lit("#00000000")),
            ("b".to_owned(), reference("nope")),
        ],
    };
    match palette.resolve() {
        Err(ThemeError::MissingReference { name }) => assert_eq!(name, "nope"),
        other => panic!("expected a missing-reference report, got {other:?}"),
    }
}

#[test]
fn entry_modifiers_apply_along_the_chain() {
    let fg = Color {
        base: BaseColorKind::PaletteReference("base".to_owned()),
        modifiers: ColorModifiers { lighten: Some(MOD_ONE / 2), ..empty_mods() },
    };
    let palette = Palette {
        colors: vec![("base".to_owned(), lit("#000000ff")), ("fg".to_owned(), fg)],
    };
    let resolved = palette.resolve().unwrap();
    let base = *get(&resolved, "base").unwrap();
    let lightened = *get(&resolved, "fg").unwrap();
    assert_eq!(base, HexColor([0, 0, 0, 255]));
    assert_eq!(lightened, HexColor([127, 127, 127, 255]));
    assert_ne!(lightened, base);
    for i in 0..3 {
        assert!(lightened.0[i] > base.0[i]);
    }
}

#[test]
fn lookup_resolves_single_colors() {
    let palette = Palette { colors: vec![("base".to_owned(), lit("#aabbccff"))] };
    let resolved = palette.resolve().unwrap();
    assert_eq!(
        resolved.lookup(&reference("base")).unwrap(),
        HexColor([0xaa, 0xbb, 0xcc, 0xff])
    );
    assert_eq!(resolved.lookup(&lit("#01010101")).unwrap(), HexColor([1, 1, 1, 1]));
    match resolved.lookup(&reference("missing")) {
        Err(ThemeError::MissingReference { name }) => assert_eq!(name, "missing"),
        other => panic!("expected a missing-reference report, got {other:?}"),
    }
}

#[test]
fn raw_palette_is_sorted_by_name() {
    let palette = Palette {
        colors: vec![
            ("zeta".to_owned(), lit("#01000000")),
            ("alpha".to_owned(), lit("#02000000")),
            ("mid".to_owned(), lit("#03000000")),
        ],
    };
    let resolved = palette.resolve().unwrap();
    let raw = resolved.into_raw_palette();
    let names: Vec<&str> = raw.colors.iter().map(|(n, _)| n.as_str()).collect();
    assert_eq!(names, vec!["alpha", "mid", "zeta"]);
    for (_, color) in &raw.colors {
        assert!(matches!(color.base, BaseColorKind::Hex(_)));
    }
}

#[test]
fn error_messages_name_the_offenders() {
    let self_cycle = ThemeError::SelfCycle { name: "a".to_owned() };
    assert_eq!(
        self_cycle.message(),
        "cyclic dependency in palette: a directly depends on itself"
    );
    let cycle = ThemeError::Cycle {
        chain: vec!["a".to_owned(), "b".to_owned(), "c".to_owned()],
    };
    assert_eq!(cycle.message(), "cyclic dependency in palette: a b c");
    let missing = ThemeError::MissingReference { name: "ghost".to_owned() };
    assert_eq!(missing.message(), "could not find color ghost in the palette");
    let target = ThemeError::InvalidTarget { path: "player0".to_owned() };
    assert_eq!(
        target.message(),
        "style.player cannot be modified with modifiers: player0"
    );
}
