use iro::color::{BaseColorKind, HexColor};
use iro::namer::PaletteGenerator;

#[test]
fn feeding_is_idempotent() {
    let mut gen = PaletteGenerator::new();
    gen.feed(HexColor([10, 20, 30, 255]));
    let after_first: Vec<_> = gen.rgb_to_name.clone();
    gen.feed(HexColor([10, 20, 30, 255]));
    assert_eq!(gen.rgb_to_name.len(), after_first.len());
    assert_eq!(gen.rgb_to_name[0].0, after_first[0].0);
    assert_eq!(gen.rgb_to_name[0].1, after_first[0].1);
}

#[test]
fn alpha_variants_share_one_entry() {
    // Alpha is never part of the naming key.
    let mut gen = PaletteGenerator::new();
    gen.feed(HexColor([10, 20, 30, 255]));
    gen.feed(HexColor([10, 20, 30, 9]));
    assert_eq!(gen.rgb_to_name.len(), 1);
}

#[test]
fn distinct_triples_get_distinct_names() {
    let mut gen = PaletteGenerator::new();
    let colors = [
        HexColor([0, 0, 0, 255]),
        HexColor([0, 0, 1, 255]),
        HexColor([0, 1, 0, 255]),
        HexColor([255, 0, 0, 255]),
        HexColor([254, 0, 0, 255]),
        HexColor([255, 255, 255, 255]),
    ];
    for c in colors {
        gen.feed(c);
    }
    assert_eq!(gen.rgb_to_name.len(), colors.len());
    for i in 0..gen.rgb_to_name.len() {
        for j in (i + 1)..gen.rgb_to_name.len() {
            assert_ne!(gen.rgb_to_name[i].0, gen.rgb_to_name[j].0);
            assert_ne!(gen.rgb_to_name[i].1, gen.rgb_to_name[j].1);
        }
    }
}

#[test]
fn near_identical_colors_get_numbered_variants() {
    let mut gen = PaletteGenerator::new();
    gen.feed(HexColor([0, 0, 0, 255]));
    gen.feed(HexColor([0, 0, 1, 255]));
    let first = gen.rgb_to_name[0].1.clone();
    let second = gen.rgb_to_name[1].1.clone();
    assert_ne!(first, second);
    assert!(second.starts_with(first.as_str()));
    assert!(second.ends_with("-1"));
}

#[test]
fn names_are_normalized() {
    let mut gen = PaletteGenerator::new();
    for step in 0..64u16 {
        let v = (step * 4) as u8;
        gen.feed(HexColor([v, v.wrapping_add(40), v.wrapping_mul(3), 255]));
    }
    for (_, name) in &gen.rgb_to_name {
        assert!(!name.is_empty());
        assert!(!name.contains(' '));
        assert!(!name.chars().any(|c| c.is_ascii_uppercase()));
    }
}

#[test]
fn lookup_of_named_triple_returns_reference() {
    let mut gen = PaletteGenerator::new();
    gen.feed(HexColor([10, 20, 30, 255]));
    let name = gen.rgb_to_name[0].1.clone();

    let opaque = gen.lookup(HexColor([10, 20, 30, 255]));
    assert_eq!(opaque.base, BaseColorKind::PaletteReference(name.clone()));
    assert_eq!(opaque.modifiers.alpha, None);

    let translucent = gen.lookup(HexColor([10, 20, 30, 128]));
    assert_eq!(translucent.base, BaseColorKind::PaletteReference(name));
    assert_eq!(translucent.modifiers.alpha, Some(128 * 1000));
}

#[test]
fn lookup_of_unknown_triple_returns_literal() {
    let gen = PaletteGenerator::new();
    let c = HexColor([9, 9, 9, 40]);
    let looked = gen.lookup(c);
    assert_eq!(looked.base, BaseColorKind::Hex(c));
    assert_eq!(looked.modifiers.alpha, None);
}

#[test]
fn resolved_palette_holds_opaque_colors_under_assigned_names() {
    let mut gen = PaletteGenerator::new();
    gen.feed(HexColor([1, 2, 3, 77]));
    let name = gen.rgb_to_name[0].1.clone();
    let rp = gen.into_resolved_palette();
    let entry = rp.colors.iter().find(|(n, _)| *n == name).unwrap();
    assert_eq!(entry.1, HexColor([1, 2, 3, 255]));
}
