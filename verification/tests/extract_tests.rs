use iro::color::{BaseColorKind, Color, ColorModifiers};
use iro::schema::{Action, Appearance, Modifier, ModifierPath, Player, Theme};

fn empty_mods() -> ColorModifiers {
    ColorModifiers {
        alpha: None,
        lighten: None,
        darken: None,
        saturate: None,
        desaturate: None,
        hue_shift: None,
    }
}

fn lit(hex: &str) -> Color {
    Color {
        base: BaseColorKind::Hex(iro::parse_hex_color(hex).unwrap()),
        modifiers: empty_mods(),
    }
}

fn color_action(c: Color) -> Action {
    Action { color: Some(c), background: None, font_weight: None, font_style: None }
}

fn theme(name: &str, players: Vec<Player>, modifiers: Vec<Modifier>) -> Theme {
    Theme { name: name.to_owned(), appearance: Appearance::Light, players, modifiers }
}

fn keyword_modifier() -> Modifier {
    Modifier {
        apply: vec![ModifierPath::Syntax("keyword".to_owned())],
        action: color_action(lit("#ff0000ff")),
    }
}

#[test]
fn shared_modifier_moves_to_common() {
    let mut t1 = theme("light", Vec::new(), vec![keyword_modifier()]);
    let mut t2 = theme("dark", Vec::new(), vec![keyword_modifier()]);
    let common = t1.extract_common(&mut t2);

    assert_eq!(common.name, "common");
    assert_eq!(common.appearance, Appearance::Dark);
    assert_eq!(common.modifiers.len(), 1);
    assert_eq!(common.modifiers[0].action, keyword_modifier().action);
    assert_eq!(
        common.modifiers[0].apply,
        vec![ModifierPath::Syntax("keyword".to_owned())]
    );
    // Neither theme retains the shared target: the whole modifier is
    // dropped once its target list is empty.
    assert!(t1.modifiers.is_empty());
    assert!(t2.modifiers.is_empty());
}

#[test]
fn partially_shared_targets_are_split() {
    let shared = ModifierPath::Syntax("keyword".to_owned());
    let own = ModifierPath::Syntax("comment".to_owned());
    let mut t1 = theme(
        "light",
        Vec::new(),
        vec![Modifier {
            apply: vec![shared.clone(), own.clone()],
            action: color_action(lit("#ff0000ff")),
        }],
    );
    let mut t2 = theme("dark", Vec::new(), vec![keyword_modifier()]);
    let common = t1.extract_common(&mut t2);

    assert_eq!(common.modifiers.len(), 1);
    assert_eq!(common.modifiers[0].apply, vec![shared]);
    assert_eq!(t1.modifiers.len(), 1);
    assert_eq!(t1.modifiers[0].apply, vec![own]);
    assert!(t2.modifiers.is_empty());
}

#[test]
fn unshared_actions_stay_in_place() {
    let mut t1 = theme("light", Vec::new(), vec![keyword_modifier()]);
    let mut t2 = theme(
        "dark",
        Vec::new(),
        vec![Modifier {
            apply: vec![ModifierPath::Syntax("keyword".to_owned())],
            action: color_action(lit("#00ff00ff")),
        }],
    );
    let common = t1.extract_common(&mut t2);
    assert!(common.modifiers.is_empty());
    assert_eq!(t1.modifiers.len(), 1);
    assert_eq!(t2.modifiers.len(), 1);
}

#[test]
fn shared_players_move_to_common() {
    let shared_player = Player {
        cursor: Some(lit("#01020304")),
        background: None,
        selection: None,
    };
    let own_player = Player {
        cursor: None,
        background: Some(lit("#05060708")),
        selection: None,
    };
    let mut t1 = theme(
        "light",
        vec![shared_player.clone(), own_player.clone()],
        Vec::new(),
    );
    let mut t2 = theme("dark", vec![shared_player.clone()], Vec::new());
    let common = t1.extract_common(&mut t2);

    assert_eq!(common.players.len(), 1);
    assert_eq!(common.players[0].cursor, shared_player.cursor);
    assert_eq!(t1.players.len(), 1);
    assert_eq!(t1.players[0].background, own_player.background);
    assert!(t2.players.is_empty());
}

#[test]
fn last_modifier_with_an_action_decides_its_targets() {
    // A theme carrying the same action twice contributes only the
    // later occurrence's target list to the intersection.
    let early = Modifier {
        apply: vec![ModifierPath::Syntax("keyword".to_owned())],
        action: color_action(lit("#ff0000ff")),
    };
    let late = Modifier {
        apply: vec![ModifierPath::Syntax("string".to_owned())],
        action: color_action(lit("#ff0000ff")),
    };
    let mut t1 = theme("light", Vec::new(), vec![early, late]);
    let mut t2 = theme("dark", Vec::new(), vec![keyword_modifier()]);
    let common = t1.extract_common(&mut t2);
    // The later occurrence targets `string`, which the other theme
    // does not share.
    assert!(common.modifiers.is_empty());
}
