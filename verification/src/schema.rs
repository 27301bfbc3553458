//! The authored form of a theme family: palette, variants, modifiers.
use crate::color::{color_eq, Color, ColorView};
use crate::palette::Palette;
use vstd::prelude::*;

verus! {

broadcast use vstd::seq::group_seq_axioms;

/// Whether a variant is meant for a light or a dark surrounding.
#[derive(Debug, Clone, Copy, PartialEq, Eq, Structural)]
pub enum Appearance {
    Light,
    Dark,
}

/// Family metadata.
#[derive(Debug, Clone)]
pub struct Meta {
    pub name: String,
    pub author: String,
}

#[verifier::ext_equal]
pub struct MetaView {
    pub name: Seq<char>,
    pub author: Seq<char>,
}

impl View for Meta {
    type V = MetaView;

    open spec fn view(&self) -> MetaView {
        MetaView { name: self.name@, author: self.author@ }
    }
}

/// The namespace a style target lives in: a flat style key or a
/// syntax scope name.
#[derive(Debug, Clone, PartialEq, Eq, Hash)]
pub enum ModifierPath {
    Style(String),
    Syntax(String),
}

/// Mathematical model of [`ModifierPath`].
#[verifier::ext_equal]
pub enum PathView {
    Style(Seq<char>),
    Syntax(Seq<char>),
}

impl View for ModifierPath {
    type V = PathView;

    open spec fn view(&self) -> PathView {
        match self {
            ModifierPath::Style(s) => PathView::Style(s@),
            ModifierPath::Syntax(s) => PathView::Syntax(s@),
        }
    }
}

/// A borrowed style target.
#[derive(Debug, Clone, Copy)]
pub enum BorrowedModifierPath<'a> {
    Style(&'a str),
    Syntax(&'a str),
}

impl<'a> View for BorrowedModifierPath<'a> {
    type V = PathView;

    open spec fn view(&self) -> PathView {
        match self {
            BorrowedModifierPath::Style(s) => PathView::Style(s@),
            BorrowedModifierPath::Syntax(s) => PathView::Syntax(s@),
        }
    }
}

impl<'a> BorrowedModifierPath<'a> {
    pub fn into_owned(self) -> (r: ModifierPath)
        ensures
            r@ == self@,
    {
        match self {
            BorrowedModifierPath::Style(data) => ModifierPath::Style(data.to_owned()),
            BorrowedModifierPath::Syntax(data) => ModifierPath::Syntax(data.to_owned()),
        }
    }
}

pub fn path_eq(a: &ModifierPath, b: &ModifierPath) -> (r: bool)
    ensures
        r == (a@ == b@),
{
    match (a, b) {
        (ModifierPath::Style(x), ModifierPath::Style(y)) => x.eq(y),
        (ModifierPath::Syntax(x), ModifierPath::Syntax(y)) => x.eq(y),
        _ => false,
    }
}

pub fn path_clone(p: &ModifierPath) -> (r: ModifierPath)
    ensures
        r@ == p@,
{
    match p {
        ModifierPath::Style(s) => ModifierPath::Style(s.clone()),
        ModifierPath::Syntax(s) => ModifierPath::Syntax(s.clone()),
    }
}

pub fn color_clone(c: &Color) -> (r: Color)
    ensures
        r@ == c@,
{
    let base = match &c.base {
        crate::color::BaseColorKind::Hex(h) => crate::color::BaseColorKind::Hex(*h),
        crate::color::BaseColorKind::PaletteReference(s) => {
            crate::color::BaseColorKind::PaletteReference(s.clone())
        },
    };
    Color { base, modifiers: c.modifiers }
}

/// The view of an optional color.
pub open spec fn opt_color_view(c: Option<Color>) -> Option<ColorView> {
    match c {
        Some(x) => Some(x@),
        None => None,
    }
}

pub fn opt_color_clone(c: &Option<Color>) -> (r: Option<Color>)
    ensures
        opt_color_view(r) == opt_color_view(*c),
{
    match c {
        Some(x) => Some(color_clone(x)),
        None => None,
    }
}

pub fn opt_color_eq(a: &Option<Color>, b: &Option<Color>) -> (r: bool)
    ensures
        r == (opt_color_view(*a) == opt_color_view(*b)),
{
    match (a, b) {
        (Some(x), Some(y)) => color_eq(x, y),
        (None, None) => true,
        _ => false,
    }
}

/// The views of a target list.
pub open spec fn paths_view(s: Seq<ModifierPath>) -> Seq<PathView> {
    s.map_values(|p: ModifierPath| p@)
}

/// A bundle of optional edits applied to style targets.
#[derive(Debug, Clone, Default, PartialEq)]
pub struct Action {
    pub color: Option<Color>,
    pub background: Option<Color>,
    pub font_weight: Option<u16>,
    pub font_style: Option<String>,
}

/// Mathematical model of [`Action`].
#[verifier::ext_equal]
pub struct ActionView {
    pub color: Option<ColorView>,
    pub background: Option<ColorView>,
    pub font_weight: Option<u16>,
    pub font_style: Option<Seq<char>>,
}

pub open spec fn opt_str_view(s: Option<String>) -> Option<Seq<char>> {
    match s {
        Some(x) => Some(x@),
        None => None,
    }
}

impl View for Action {
    type V = ActionView;

    open spec fn view(&self) -> ActionView {
        ActionView {
            color: opt_color_view(self.color),
            background: opt_color_view(self.background),
            font_weight: self.font_weight,
            font_style: opt_str_view(self.font_style),
        }
    }
}

pub fn action_eq(a: &Action, b: &Action) -> (r: bool)
    ensures
        r == (a@ == b@),
{
    let fw = match (&a.font_weight, &b.font_weight) {
        (Some(x), Some(y)) => *x == *y,
        (None, None) => true,
        _ => false,
    };
    let fs = match (&a.font_style, &b.font_style) {
        (Some(x), Some(y)) => x.eq(y),
        (None, None) => true,
        _ => false,
    };
    let r = opt_color_eq(&a.color, &b.color) && opt_color_eq(&a.background, &b.background) && fw
        && fs;
    proof {
        if r {
            assert(a@ =~= b@);
        }
    }
    r
}

pub fn action_clone(a: &Action) -> (r: Action)
    ensures
        r@ == a@,
{
    let r = Action {
        color: opt_color_clone(&a.color),
        background: opt_color_clone(&a.background),
        font_weight: a.font_weight,
        font_style: match &a.font_style {
            Some(s) => Some(s.clone()),
            None => None,
        },
    };
    proof {
        assert(r@ =~= a@);
    }
    r
}

/// An action plus the ordered list of targets it applies to.
#[derive(Debug, Clone)]
pub struct Modifier {
    pub apply: Vec<ModifierPath>,
    pub action: Action,
}

/// Mathematical model of [`Modifier`].
#[verifier::ext_equal]
pub struct ModifierView {
    pub apply: Seq<PathView>,
    pub action: ActionView,
}

impl View for Modifier {
    type V = ModifierView;

    open spec fn view(&self) -> ModifierView {
        ModifierView { apply: paths_view(self.apply@), action: self.action@ }
    }
}

pub fn modifier_clone(m: &Modifier) -> (r: Modifier)
    ensures
        r@ == m@,
{
    let mut apply: Vec<ModifierPath> = Vec::new();
    let n = m.apply.len();
    let mut i: usize = 0;
    while i < n
        invariant
            n == m.apply@.len(),
            i <= n,
            paths_view(apply@) == paths_view(m.apply@.subrange(0, i as int)),
        decreases n - i,
    {
        let ghost ap0 = apply@;
        apply.push(path_clone(&m.apply[i]));
        proof {
            assert(paths_view(ap0) == paths_view(m.apply@.subrange(0, i as int)));
            assert(paths_view(ap0).len() == ap0.len());
            assert(paths_view(m.apply@.subrange(0, i as int)).len() == i);
            assert(ap0.len() == i);
            assert(apply@.len() == ap0.len() + 1);
            assert(paths_view(apply@).len() == i + 1);
            assert(apply@ == ap0.push(apply@[i as int]));
            assert forall|k: int| 0 <= k < i + 1 implies paths_view(apply@)[k] == paths_view(
                m.apply@.subrange(0, i + 1),
            )[k] by {
                assert(paths_view(apply@)[k] == apply@[k]@);
                assert(paths_view(m.apply@.subrange(0, i + 1))[k] == m.apply@.subrange(
                    0,
                    i + 1,
                )[k]@);
                if k < i {
                    assert(apply@[k] == ap0[k]);
                    assert(paths_view(ap0)[k] == ap0[k]@);
                }
            }
            assert(paths_view(apply@) =~~= paths_view(m.apply@.subrange(0, i + 1)));
        }
        i += 1;
    }
    proof {
        assert(m.apply@.subrange(0, n as int) =~= m.apply@);
    }
    let r = Modifier { apply, action: action_clone(&m.action) };
    proof {
        assert(r@ =~= m@);
    }
    r
}

pub fn paths_clone(v: &Vec<ModifierPath>) -> (r: Vec<ModifierPath>)
    ensures
        paths_view(r@) == paths_view(v@),
{
    let mut out: Vec<ModifierPath> = Vec::new();
    let n = v.len();
    let mut i: usize = 0;
    while i < n
        invariant
            n == v@.len(),
            i <= n,
            paths_view(out@) == paths_view(v@.subrange(0, i as int)),
        decreases n - i,
    {
        let ghost o0 = out@;
        out.push(path_clone(&v[i]));
        proof {
            assert(paths_view(o0).len() == o0.len());
            assert(paths_view(v@.subrange(0, i as int)).len() == i);
            assert forall|k: int| 0 <= k < i + 1 implies paths_view(out@)[k] == paths_view(
                v@.subrange(0, i + 1),
            )[k] by {
                assert(paths_view(out@)[k] == out@[k]@);
                assert(paths_view(v@.subrange(0, i + 1))[k] == v@.subrange(0, i + 1)[k]@);
                if k < i {
                    assert(out@[k] == o0[k]);
                    assert(paths_view(o0)[k] == o0[k]@);
                }
            }
            assert(paths_view(out@) =~~= paths_view(v@.subrange(0, i + 1)));
        }
        i += 1;
    }
    proof {
        assert(v@.subrange(0, n as int) =~= v@);
    }
    out
}

/// The views of a player list.
pub open spec fn players_view(s: Seq<Player>) -> Seq<PlayerView> {
    s.map_values(|p: Player| p@)
}

/// The views of a modifier list.
pub open spec fn modifiers_view(s: Seq<Modifier>) -> Seq<ModifierView> {
    s.map_values(|m: Modifier| m@)
}

/// One player record: three optional color slots.
#[derive(Debug, Clone)]
pub struct Player {
    pub cursor: Option<Color>,
    pub background: Option<Color>,
    pub selection: Option<Color>,
}

/// Mathematical model of [`Player`].
#[verifier::ext_equal]
pub struct PlayerView {
    pub cursor: Option<ColorView>,
    pub background: Option<ColorView>,
    pub selection: Option<ColorView>,
}

impl View for Player {
    type V = PlayerView;

    open spec fn view(&self) -> PlayerView {
        PlayerView {
            cursor: opt_color_view(self.cursor),
            background: opt_color_view(self.background),
            selection: opt_color_view(self.selection),
        }
    }
}

pub fn player_eq(a: &Player, b: &Player) -> (r: bool)
    ensures
        r == (a@ == b@),
{
    let r = opt_color_eq(&a.cursor, &b.cursor) && opt_color_eq(&a.background, &b.background)
        && opt_color_eq(&a.selection, &b.selection);
    proof {
        if r {
            assert(a@ =~= b@);
        }
    }
    r
}

pub fn player_clone(p: &Player) -> (r: Player)
    ensures
        r@ == p@,
{
    let r = Player {
        cursor: opt_color_clone(&p.cursor),
        background: opt_color_clone(&p.background),
        selection: opt_color_clone(&p.selection),
    };
    proof {
        assert(r@ =~= p@);
    }
    r
}

/// One named variant of a theme family.
#[derive(Debug, Clone)]
pub struct Theme {
    pub name: String,
    pub appearance: Appearance,
    pub players: Vec<Player>,
    pub modifiers: Vec<Modifier>,
}

/// Mathematical model of [`Theme`].
#[verifier::ext_equal]
pub struct ThemeView {
    pub name: Seq<char>,
    pub appearance: Appearance,
    pub players: Seq<PlayerView>,
    pub modifiers: Seq<ModifierView>,
}

impl View for Theme {
    type V = ThemeView;

    open spec fn view(&self) -> ThemeView {
        ThemeView {
            name: self.name@,
            appearance: self.appearance,
            players: players_view(self.players@),
            modifiers: modifiers_view(self.modifiers@),
        }
    }
}

pub fn players_clone(ps: &Vec<Player>) -> (r: Vec<Player>)
    ensures
        players_view(r@) == players_view(ps@),
{
    let mut out: Vec<Player> = Vec::new();
    let n = ps.len();
    let mut i: usize = 0;
    while i < n
        invariant
            n == ps@.len(),
            i <= n,
            players_view(out@) == players_view(ps@.subrange(0, i as int)),
        decreases n - i,
    {
        let ghost op0 = out@;
        out.push(player_clone(&ps[i]));
        proof {
            assert(players_view(op0).len() == op0.len());
            assert(players_view(ps@.subrange(0, i as int)).len() == i);
            assert forall|k: int| 0 <= k < i + 1 implies players_view(out@)[k] == players_view(
                ps@.subrange(0, i + 1),
            )[k] by {
                assert(players_view(out@)[k] == out@[k]@);
                assert(players_view(ps@.subrange(0, i + 1))[k] == ps@.subrange(0, i + 1)[k]@);
                if k < i {
                    assert(out@[k] == op0[k]);
                    assert(players_view(op0)[k] == op0[k]@);
                }
            }
            assert(players_view(out@) =~~= players_view(ps@.subrange(0, i + 1)));
        }
        i += 1;
    }
    proof {
        assert(ps@.subrange(0, n as int) =~= ps@);
    }
    out
}

pub fn modifiers_clone(ms: &Vec<Modifier>) -> (r: Vec<Modifier>)
    ensures
        modifiers_view(r@) == modifiers_view(ms@),
{
    let mut out: Vec<Modifier> = Vec::new();
    let n = ms.len();
    let mut i: usize = 0;
    while i < n
        invariant
            n == ms@.len(),
            i <= n,
            modifiers_view(out@) == modifiers_view(ms@.subrange(0, i as int)),
        decreases n - i,
    {
        let ghost om0 = out@;
        out.push(modifier_clone(&ms[i]));
        proof {
            assert(modifiers_view(om0).len() == om0.len());
            assert(modifiers_view(ms@.subrange(0, i as int)).len() == i);
            assert forall|k: int| 0 <= k < i + 1 implies modifiers_view(out@)[k] == modifiers_view(
                ms@.subrange(0, i + 1),
            )[k] by {
                assert(modifiers_view(out@)[k] == out@[k]@);
                assert(modifiers_view(ms@.subrange(0, i + 1))[k] == ms@.subrange(0, i + 1)[k]@);
                if k < i {
                    assert(out@[k] == om0[k]);
                    assert(modifiers_view(om0)[k] == om0[k]@);
                }
            }
            assert(modifiers_view(out@) =~~= modifiers_view(ms@.subrange(0, i + 1)));
        }
        i += 1;
    }
    proof {
        assert(ms@.subrange(0, n as int) =~= ms@);
    }
    out
}

impl Theme {
    /// Layers this theme on top of `bottom`: the shared theme's
    /// modifiers and players come first, so this theme's own entries
    /// are applied later and override them.
    pub fn merge(&mut self, bottom: &Theme)
        ensures
            final(self)@.name == old(self)@.name,
            final(self)@.appearance == old(self)@.appearance,
            final(self)@.modifiers == bottom@.modifiers + old(self)@.modifiers,
            final(self)@.players == bottom@.players + old(self)@.players,
    {
        let mut new_modifiers = modifiers_clone(&bottom.modifiers);
        let ghost nm0 = new_modifiers@;
        let ghost om0 = self.modifiers@;
        new_modifiers.append(&mut self.modifiers);
        proof {
            assert(modifiers_view(nm0 + om0) =~= modifiers_view(nm0) + modifiers_view(om0));
        }
        self.modifiers = new_modifiers;
        let mut new_players = players_clone(&bottom.players);
        let ghost np0 = new_players@;
        let ghost op0 = self.players@;
        new_players.append(&mut self.players);
        proof {
            assert(players_view(np0 + op0) =~= players_view(np0) + players_view(op0));
        }
        self.players = new_players;
    }
}

/// The views of a theme list.
pub open spec fn themes_view(s: Seq<Theme>) -> Seq<ThemeView> {
    s.map_values(|t: Theme| t@)
}

pub fn theme_clone(t: &Theme) -> (r: Theme)
    ensures
        r@ == t@,
{
    let r = Theme {
        name: t.name.clone(),
        appearance: t.appearance,
        players: players_clone(&t.players),
        modifiers: modifiers_clone(&t.modifiers),
    };
    proof {
        assert(r@ =~= t@);
    }
    r
}

/// A whole theme family in authored form.
#[derive(Debug, Clone)]
pub struct ThemeFamily {
    pub meta: Meta,
    pub palette: Palette,
    pub themes: Vec<Theme>,
    pub common: Option<Theme>,
}

} // verus!
