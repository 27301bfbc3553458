//! The flat, fully resolved output form of a theme family.
//!
//! Styles are keyed maps: a flat key holds one optional color, the
//! reserved `players` key holds the player list, and the reserved
//! `syntax` key holds a map of syntax scopes. All colors are literal.
use crate::color::HexColor;
use crate::schema::{Appearance, Meta};
use vstd::prelude::*;

verus! {

broadcast use vstd::seq::group_seq_axioms;

/// One syntax scope's attributes.
#[derive(Debug, Clone)]
pub struct Syntax {
    pub color: Option<HexColor>,
    pub background: Option<HexColor>,
    pub font_weight: Option<u16>,
    pub font_style: Option<String>,
}

/// Mathematical model of [`Syntax`].
#[verifier::ext_equal]
pub struct SyntaxView {
    pub color: Option<HexColor>,
    pub background: Option<HexColor>,
    pub font_weight: Option<u16>,
    pub font_style: Option<Seq<char>>,
}

impl View for Syntax {
    type V = SyntaxView;

    open spec fn view(&self) -> SyntaxView {
        SyntaxView {
            color: self.color,
            background: self.background,
            font_weight: self.font_weight,
            font_style: crate::schema::opt_str_view(self.font_style),
        }
    }
}

pub fn syntax_clone(s: &Syntax) -> (r: Syntax)
    ensures
        r@ == s@,
{
    let r = Syntax {
        color: s.color,
        background: s.background,
        font_weight: s.font_weight,
        font_style: match &s.font_style {
            Some(x) => Some(x.clone()),
            None => None,
        },
    };
    proof {
        assert(r@ =~= s@);
    }
    r
}

/// One player record of the flat form.
#[derive(Debug, Clone)]
pub struct Player {
    pub cursor: Option<HexColor>,
    pub background: Option<HexColor>,
    pub selection: Option<HexColor>,
}

/// Mathematical model of the flat [`Player`].
#[verifier::ext_equal]
pub struct FlatPlayerView {
    pub cursor: Option<HexColor>,
    pub background: Option<HexColor>,
    pub selection: Option<HexColor>,
}

impl View for Player {
    type V = FlatPlayerView;

    open spec fn view(&self) -> FlatPlayerView {
        FlatPlayerView {
            cursor: self.cursor,
            background: self.background,
            selection: self.selection,
        }
    }
}

/// The views of a flat player list.
pub open spec fn flat_players_view(s: Seq<Player>) -> Seq<FlatPlayerView> {
    s.map_values(|p: Player| p@)
}

/// One value of the style map.
#[derive(Debug, Clone)]
pub enum StyleEntry {
    Syntax(Vec<(String, Syntax)>),
    Players(Vec<Player>),
    Normal(Option<HexColor>),
}

/// Mathematical model of [`StyleEntry`]: the syntax list becomes a
/// mapping from scope name to attributes.
#[verifier::ext_equal]
pub enum EntryView {
    Syntax(Map<Seq<char>, SyntaxView>),
    Players(Seq<FlatPlayerView>),
    Normal(Option<HexColor>),
}

/// The mapping denoted by a scope/attribute entry list: later wins.
pub open spec fn syntax_map(s: Seq<(String, Syntax)>) -> Map<Seq<char>, SyntaxView>
    decreases s.len(),
{
    if s.len() == 0 {
        Map::empty()
    } else {
        syntax_map(s.drop_last()).insert(s.last().0@, s.last().1@)
    }
}

impl View for StyleEntry {
    type V = EntryView;

    open spec fn view(&self) -> EntryView {
        match self {
            StyleEntry::Syntax(v) => EntryView::Syntax(syntax_map(v@)),
            StyleEntry::Players(v) => EntryView::Players(flat_players_view(v@)),
            StyleEntry::Normal(c) => EntryView::Normal(*c),
        }
    }
}

/// The mapping denoted by a key/entry list: later wins.
pub open spec fn style_map(s: Seq<(String, StyleEntry)>) -> Map<Seq<char>, EntryView>
    decreases s.len(),
{
    if s.len() == 0 {
        Map::empty()
    } else {
        style_map(s.drop_last()).insert(s.last().0@, s.last().1@)
    }
}

/// No two style entries share a key.
pub open spec fn distinct_style_keys(s: Seq<(String, StyleEntry)>) -> bool {
    forall|i: int, j: int| 0 <= i < j < s.len() ==> s[i].0@ != s[j].0@
}

pub proof fn lemma_style_map_dom(s: Seq<(String, StyleEntry)>)
    ensures
        style_map(s).dom().finite(),
        forall|n: Seq<char>| #[trigger]
            style_map(s).dom().contains(n) <==> (exists|i: int|
                0 <= i < s.len() && s[i].0@ == n),
    decreases s.len(),
{
    if s.len() > 0 {
        lemma_style_map_dom(s.drop_last());
        assert forall|n: Seq<char>| #[trigger] style_map(s).dom().contains(n) implies (exists|
            i: int,
        |
            0 <= i < s.len() && s[i].0@ == n) by {
            if n == s.last().0@ {
                assert(s[s.len() - 1].0@ == n);
            } else {
                let i = choose|i: int| 0 <= i < s.len() - 1 && s.drop_last()[i].0@ == n;
                assert(s[i].0@ == n);
            }
        }
        assert forall|n: Seq<char>|
            (exists|i: int| 0 <= i < s.len() && s[i].0@ == n) implies #[trigger] style_map(
            s,
        ).dom().contains(n) by {
            let i = choose|i: int| 0 <= i < s.len() && s[i].0@ == n;
            if i < s.len() - 1 {
                assert(s.drop_last()[i].0@ == n);
            }
        }
    }
}

pub proof fn lemma_style_map_value(s: Seq<(String, StyleEntry)>, i: int)
    requires
        0 <= i < s.len(),
        forall|j: int| i < j < s.len() ==> s[j].0@ != s[i].0@,
    ensures
        style_map(s).dom().contains(s[i].0@),
        style_map(s)[s[i].0@] == s[i].1@,
    decreases s.len(),
{
    if i == s.len() - 1 {
    } else {
        assert(forall|j: int|
            i < j < s.drop_last().len() ==> s.drop_last()[j].0@ != s.drop_last()[i].0@);
        lemma_style_map_value(s.drop_last(), i);
    }
}

/// Replacing the value at a key's slot updates the mapping at that key.
pub proof fn lemma_style_map_update(s: Seq<(String, StyleEntry)>, i: int, p: (String, StyleEntry))
    requires
        0 <= i < s.len(),
        distinct_style_keys(s),
        p.0@ == s[i].0@,
    ensures
        style_map(s.update(i, p)) == style_map(s).insert(s[i].0@, p.1@),
        distinct_style_keys(s.update(i, p)),
    decreases s.len(),
{
    let s2 = s.update(i, p);
    if i == s.len() - 1 {
        assert(s2.drop_last() =~= s.drop_last());
        assert(s2.last() == p);
        assert(style_map(s2) =~= style_map(s).insert(s[i].0@, p.1@));
    } else {
        assert(s2.drop_last() =~= s.drop_last().update(i, p));
        assert(s2.last() == s.last());
        assert(forall|i2: int, j2: int|
            0 <= i2 < j2 < s.drop_last().len() ==> s.drop_last()[i2].0@ != s.drop_last()[j2].0@);
        lemma_style_map_update(s.drop_last(), i, p);
        assert(s.last().0@ != s[i].0@);
        assert(style_map(s2) =~= style_map(s).insert(s[i].0@, p.1@));
    }
    assert forall|i2: int, j2: int| 0 <= i2 < j2 < s2.len() implies s2[i2].0@ != s2[j2].0@ by {
        assert(s2[i2].0@ == s[i2].0@);
        assert(s2[j2].0@ == s[j2].0@);
    }
}

/// Same statement for the syntax scope mapping.
pub open spec fn distinct_syntax_keys(s: Seq<(String, Syntax)>) -> bool {
    forall|i: int, j: int| 0 <= i < j < s.len() ==> s[i].0@ != s[j].0@
}

pub proof fn lemma_syntax_map_dom(s: Seq<(String, Syntax)>)
    ensures
        syntax_map(s).dom().finite(),
        forall|n: Seq<char>| #[trigger]
            syntax_map(s).dom().contains(n) <==> (exists|i: int|
                0 <= i < s.len() && s[i].0@ == n),
    decreases s.len(),
{
    if s.len() > 0 {
        lemma_syntax_map_dom(s.drop_last());
        assert forall|n: Seq<char>| #[trigger] syntax_map(s).dom().contains(n) implies (exists|
            i: int,
        |
            0 <= i < s.len() && s[i].0@ == n) by {
            if n == s.last().0@ {
                assert(s[s.len() - 1].0@ == n);
            } else {
                let i = choose|i: int| 0 <= i < s.len() - 1 && s.drop_last()[i].0@ == n;
                assert(s[i].0@ == n);
            }
        }
        assert forall|n: Seq<char>|
            (exists|i: int| 0 <= i < s.len() && s[i].0@ == n) implies #[trigger] syntax_map(
            s,
        ).dom().contains(n) by {
            let i = choose|i: int| 0 <= i < s.len() && s[i].0@ == n;
            if i < s.len() - 1 {
                assert(s.drop_last()[i].0@ == n);
            }
        }
    }
}

pub proof fn lemma_syntax_map_value(s: Seq<(String, Syntax)>, i: int)
    requires
        0 <= i < s.len(),
        forall|j: int| i < j < s.len() ==> s[j].0@ != s[i].0@,
    ensures
        syntax_map(s).dom().contains(s[i].0@),
        syntax_map(s)[s[i].0@] == s[i].1@,
    decreases s.len(),
{
    if i == s.len() - 1 {
    } else {
        assert(forall|j: int|
            i < j < s.drop_last().len() ==> s.drop_last()[j].0@ != s.drop_last()[i].0@);
        lemma_syntax_map_value(s.drop_last(), i);
    }
}

/// One compiled theme of the flat form.
#[derive(Debug, Clone)]
pub struct JsonTheme {
    pub name: String,
    pub appearance: Appearance,
    pub style: Vec<(String, StyleEntry)>,
}

/// Mathematical model of [`JsonTheme`].
#[verifier::ext_equal]
pub struct JsonThemeView {
    pub name: Seq<char>,
    pub appearance: Appearance,
    pub style: Map<Seq<char>, EntryView>,
}

impl View for JsonTheme {
    type V = JsonThemeView;

    open spec fn view(&self) -> JsonThemeView {
        JsonThemeView {
            name: self.name@,
            appearance: self.appearance,
            style: style_map(self.style@),
        }
    }
}

/// The whole flat document.
#[derive(Debug, Clone)]
pub struct ThemeFamily {
    pub schema: String,
    pub meta: Meta,
    pub themes: Vec<JsonTheme>,
}

/// The views of a compiled theme list.
pub open spec fn json_themes_view(s: Seq<JsonTheme>) -> Seq<JsonThemeView> {
    s.map_values(|t: JsonTheme| t@)
}

} // verus!
