//! The reverse decompiler: flat form back to the authored form.
//!
//! Two passes over the flat style tree. The first feeds every literal
//! color into one shared [`PaletteGenerator`], so names are stable
//! across the whole family before any theme is translated. The second
//! translates players through the generator and regroups every other
//! attribute by value, emitting one modifier per distinct value with
//! the list of targets it was seen at. With exactly two themes, the
//! shared structure is factored into a `common` theme afterward.
use crate::color::{Color, HexColor};
use crate::error::ErrorView;
use crate::flat::{distinct_style_keys, JsonTheme, StyleEntry, Syntax, ThemeFamily as FlatFamily};
use crate::namer::PaletteGenerator;
use crate::palette::sorted_names;
use crate::schema::{
    modifiers_view, Action, BorrowedModifierPath, Modifier, ModifierPath, PathView, Player, Theme,
    ThemeFamily, ModifierView,
};
use vstd::prelude::*;

verus! {

broadcast use vstd::seq::group_seq_axioms;

/// One observation the traversal hands to a visitor, in traversal
/// order: a whole syntax scope, a color (with its target, or none for
/// player slots), a syntax background, or a font attribute.
#[verifier::ext_equal]
pub enum VisitEvent {
    Scope(PathView, crate::flat::SyntaxView),
    Color(Option<PathView>, HexColor),
    Background(PathView, HexColor),
    FontWeight(PathView, u16),
    FontStyle(PathView, Seq<char>),
}

/// The view of an optional borrowed target.
pub open spec fn opt_path_view<'a>(key: Option<BorrowedModifierPath<'a>>) -> Option<PathView> {
    match key {
        Some(p) => Some(p@),
        None => None,
    }
}

pub open spec fn sp_opt_color_event(key: Option<PathView>, c: Option<HexColor>) -> Seq<VisitEvent> {
    match c {
        Some(h) => seq![VisitEvent::Color(key, h)],
        None => Seq::empty(),
    }
}

/// The events one player record produces: cursor, background,
/// selection, in that order, each only when present.
pub open spec fn sp_player_events_one(p: crate::flat::Player) -> Seq<VisitEvent> {
    sp_opt_color_event(None, p.cursor) + sp_opt_color_event(None, p.background)
        + sp_opt_color_event(None, p.selection)
}

pub open spec fn sp_players_events(ps: Seq<crate::flat::Player>) -> Seq<VisitEvent>
    decreases ps.len(),
{
    if ps.len() == 0 {
        Seq::empty()
    } else {
        sp_players_events(ps.drop_last()) + sp_player_events_one(ps.last())
    }
}

/// The events one syntax scope produces: the scope itself, then its
/// color, background, font style and font weight, each only when
/// present.
pub open spec fn sp_scope_events_one(name: Seq<char>, sx: crate::flat::SyntaxView) -> Seq<
    VisitEvent,
> {
    let path = PathView::Syntax(name);
    seq![VisitEvent::Scope(path, sx)] + (match sx.color {
        Some(h) => seq![VisitEvent::Color(Some(path), h)],
        None => Seq::empty(),
    }) + (match sx.background {
        Some(h) => seq![VisitEvent::Background(path, h)],
        None => Seq::empty(),
    }) + (match sx.font_style {
        Some(fs) => seq![VisitEvent::FontStyle(path, fs)],
        None => Seq::empty(),
    }) + (match sx.font_weight {
        Some(w) => seq![VisitEvent::FontWeight(path, w)],
        None => Seq::empty(),
    })
}

pub open spec fn sp_scope_events(v: Seq<(String, crate::flat::Syntax)>) -> Seq<VisitEvent>
    decreases v.len(),
{
    if v.len() == 0 {
        Seq::empty()
    } else {
        sp_scope_events(v.drop_last()) + sp_scope_events_one(v.last().0@, v.last().1@)
    }
}

/// The events one style entry produces.
pub open spec fn sp_entry_events(key: Seq<char>, e: StyleEntry) -> Seq<VisitEvent> {
    match e {
        StyleEntry::Normal(c) => sp_opt_color_event(Some(PathView::Style(key)), c),
        StyleEntry::Players(ps) => sp_players_events(ps@),
        StyleEntry::Syntax(v) => sp_scope_events(v@),
    }
}

/// Every observable attribute of a style map, in traversal order.
pub open spec fn sp_style_events(s: Seq<(String, StyleEntry)>) -> Seq<VisitEvent>
    decreases s.len(),
{
    if s.len() == 0 {
        Seq::empty()
    } else {
        sp_style_events(s.drop_last()) + sp_entry_events(s.last().0@, s.last().1)
    }
}

/// Walks a flat style tree and hands every observable attribute to a
/// visitor. Each visitor keeps a ghost log of the events it was
/// handed, so that what a traversal did is part of its contract.
pub trait StyleVisitor: Sized {
    spec fn inv(&self) -> bool;

    spec fn log(&self) -> Seq<VisitEvent>;

    /// The naming context the visitor resolves colors against; a
    /// visitor that keeps none returns the empty mapping. Visits
    /// never change it.
    spec fn gen(&self) -> Map<Seq<u8>, Seq<char>>;

    fn visit_syntax(&mut self, path: BorrowedModifierPath<'_>, syntax: &Syntax)
        requires
            old(self).inv(),
        ensures
            final(self).inv(),
            final(self).log() == old(self).log().push(VisitEvent::Scope(path@, syntax@)),
            final(self).gen() == old(self).gen(),
    ;

    fn visit_color(&mut self, key: Option<BorrowedModifierPath<'_>>, color: HexColor)
        requires
            old(self).inv(),
        ensures
            final(self).inv(),
            final(self).log() == old(self).log().push(
                VisitEvent::Color(opt_path_view(key), color),
            ),
            final(self).gen() == old(self).gen(),
    ;

    fn visit_background(&mut self, key: BorrowedModifierPath<'_>, color: HexColor)
        requires
            old(self).inv(),
        ensures
            final(self).inv(),
            final(self).log() == old(self).log().push(VisitEvent::Background(key@, color)),
            final(self).gen() == old(self).gen(),
    ;

    fn visit_font_weight(&mut self, key: BorrowedModifierPath<'_>, weight: u16)
        requires
            old(self).inv(),
        ensures
            final(self).inv(),
            final(self).log() == old(self).log().push(VisitEvent::FontWeight(key@, weight)),
            final(self).gen() == old(self).gen(),
    ;

    fn visit_font_style(&mut self, key: BorrowedModifierPath<'_>, style: &str)
        requires
            old(self).inv(),
        ensures
            final(self).inv(),
            final(self).log() == old(self).log().push(VisitEvent::FontStyle(key@, style@)),
            final(self).gen() == old(self).gen(),
    ;
}

/// Visits every player color, flat style color, and syntax attribute
/// of one style map, in entry order: the visitor's log grows by
/// exactly the style map's events.
#[verifier::rlimit(80)]
pub fn visit_styles<V: StyleVisitor>(visitor: &mut V, map: &Vec<(String, StyleEntry)>)
    requires
        old(visitor).inv(),
    ensures
        final(visitor).inv(),
        final(visitor).log() == old(visitor).log() + sp_style_events(map@),
        final(visitor).gen() == old(visitor).gen(),
{
    let ghost log0 = visitor.log();
    let ghost gen0 = visitor.gen();
    let n = map.len();
    let mut i: usize = 0;
    proof {
        assert(visitor.log() =~= log0 + sp_style_events(map@.take(0))) by {
            assert(map@.take(0) =~= Seq::<(String, StyleEntry)>::empty());
        }
    }
    while i < n
        invariant
            n == map@.len(),
            i <= n,
            visitor.inv(),
            visitor.gen() == gen0,
            visitor.log() == log0 + sp_style_events(map@.take(i as int)),
        decreases n - i,
    {
        let ghost base = visitor.log();
        let pair = &map[i];
        match &pair.1 {
            StyleEntry::Normal(Some(color)) => {
                visitor.visit_color(Some(BorrowedModifierPath::Style(pair.0.as_str())), *color);
                proof {
                    assert(visitor.log() =~= base + sp_entry_events(pair.0@, pair.1));
                }
            },
            StyleEntry::Normal(None) => {
                proof {
                    assert(visitor.log() =~= base + sp_entry_events(pair.0@, pair.1));
                }
            },
            StyleEntry::Players(players) => {
                let np = players.len();
                let mut j: usize = 0;
                proof {
                    assert(visitor.log() =~= base + sp_players_events(players@.take(0))) by {
                        assert(players@.take(0) =~= Seq::<crate::flat::Player>::empty());
                    }
                }
                while j < np
                    invariant
                        np == players@.len(),
                        j <= np,
                        visitor.inv(),
                        visitor.gen() == gen0,
                        visitor.log() == base + sp_players_events(players@.take(j as int)),
                    decreases np - j,
                {
                    let ghost lj = visitor.log();
                    let player = &players[j];
                    if let Some(color) = player.cursor {
                        visitor.visit_color(None, color);
                    }
                    if let Some(color) = player.background {
                        visitor.visit_color(None, color);
                    }
                    if let Some(color) = player.selection {
                        visitor.visit_color(None, color);
                    }
                    proof {
                        assert(players@.take(j + 1).drop_last() =~= players@.take(j as int));
                        assert(players@.take(j + 1).last() == players@[j as int]);
                        assert(visitor.log() =~= lj + sp_player_events_one(players@[j as int]));
                        assert(visitor.log() =~= base + sp_players_events(players@.take(j + 1)));
                    }
                    j += 1;
                }
                proof {
                    assert(players@.take(np as int) =~= players@);
                    assert(visitor.log() =~= base + sp_entry_events(pair.0@, pair.1));
                }
            },
            StyleEntry::Syntax(syntax_map) => {
                let ns = syntax_map.len();
                let mut j: usize = 0;
                proof {
                    assert(visitor.log() =~= base + sp_scope_events(syntax_map@.take(0))) by {
                        assert(syntax_map@.take(0) =~= Seq::<(String, crate::flat::Syntax)>::empty());
                    }
                }
                while j < ns
                    invariant
                        ns == syntax_map@.len(),
                        j <= ns,
                        visitor.inv(),
                        visitor.gen() == gen0,
                        visitor.log() == base + sp_scope_events(syntax_map@.take(j as int)),
                    decreases ns - j,
                {
                    let ghost lj = visitor.log();
                    let entry = &syntax_map[j];
                    let path = BorrowedModifierPath::Syntax(entry.0.as_str());
                    visitor.visit_syntax(path, &entry.1);
                    if let Some(color) = entry.1.color {
                        visitor.visit_color(Some(path), color);
                    }
                    if let Some(color) = entry.1.background {
                        visitor.visit_background(path, color);
                    }
                    if let Some(style) = &entry.1.font_style {
                        visitor.visit_font_style(path, style.as_str());
                    }
                    if let Some(weight) = entry.1.font_weight {
                        visitor.visit_font_weight(path, weight);
                    }
                    proof {
                        assert(syntax_map@.take(j + 1).drop_last() =~= syntax_map@.take(j as int));
                        assert(syntax_map@.take(j + 1).last() == syntax_map@[j as int]);
                        assert(visitor.log() =~= lj + sp_scope_events_one(
                            syntax_map@[j as int].0@,
                            syntax_map@[j as int].1@,
                        ));
                        assert(visitor.log() =~= base + sp_scope_events(syntax_map@.take(j + 1)));
                    }
                    j += 1;
                }
                proof {
                    assert(syntax_map@.take(ns as int) =~= syntax_map@);
                    assert(visitor.log() =~= base + sp_entry_events(pair.0@, pair.1));
                }
            },
        }
        proof {
            assert(map@.take(i + 1).drop_last() =~= map@.take(i as int));
            assert(map@.take(i + 1).last() == map@[i as int]);
            assert(visitor.log() =~= log0 + sp_style_events(map@.take(i + 1)));
        }
        i += 1;
    }
    proof {
        assert(map@.take(n as int) =~= map@);
    }
}

/// The RGB triples an event feeds into the naming pass: colors and
/// backgrounds carry one; scopes and font attributes none.
pub open spec fn sp_event_rgbs(e: VisitEvent) -> Set<Seq<u8>> {
    match e {
        VisitEvent::Color(_, h) => Set::empty().insert(seq![h.0[0], h.0[1], h.0[2]]),
        VisitEvent::Background(_, h) => Set::empty().insert(seq![h.0[0], h.0[1], h.0[2]]),
        _ => Set::empty(),
    }
}

/// All RGB triples observed in a log of events.
pub open spec fn sp_log_rgbs(log: Seq<VisitEvent>) -> Set<Seq<u8>>
    decreases log.len(),
{
    if log.len() == 0 {
        Set::empty()
    } else {
        sp_log_rgbs(log.drop_last()).union(sp_event_rgbs(log.last()))
    }
}

/// The naming pass: feeds every color it sees into the generator, so
/// the generator names exactly the triples the log observed.
pub struct ColorVisitor {
    pub generator: PaletteGenerator,
    pub log: Ghost<Seq<VisitEvent>>,
}

impl ColorVisitor {
    pub fn new() -> (r: ColorVisitor)
        ensures
            r.inv(),
            r.log() == Seq::<VisitEvent>::empty(),
    {
        let r = ColorVisitor { generator: PaletteGenerator::new(), log: Ghost(Seq::empty()) };
        proof {
            assert(r.generator@.dom() =~= sp_log_rgbs(r.log@));
        }
        r
    }

    pub fn into_inner(self) -> (r: PaletteGenerator)
        requires
            self.inv(),
        ensures
            r.wf(),
            r@.dom() == sp_log_rgbs(self.log()),
    {
        self.generator
    }
}

impl Default for ColorVisitor {
    fn default() -> (r: Self)
        ensures
            r.inv(),
            r.log() == Seq::<VisitEvent>::empty(),
    {
        ColorVisitor::new()
    }
}

impl StyleVisitor for ColorVisitor {
    open spec fn inv(&self) -> bool {
        self.generator.wf() && self.generator@.dom() == sp_log_rgbs(self.log@)
    }

    open spec fn log(&self) -> Seq<VisitEvent> {
        self.log@
    }

    open spec fn gen(&self) -> Map<Seq<u8>, Seq<char>> {
        Map::empty()
    }

    fn visit_syntax(&mut self, path: BorrowedModifierPath<'_>, syntax: &Syntax) {
        self.log = Ghost(self.log@.push(VisitEvent::Scope(path@, syntax@)));
        proof {
            assert(self.log@.drop_last() =~= old(self).log@);
            assert(self.generator@.dom() =~= sp_log_rgbs(self.log@));
        }
    }

    fn visit_color(&mut self, key: Option<BorrowedModifierPath<'_>>, color: HexColor) {
        self.generator.feed(color);
        self.log = Ghost(self.log@.push(VisitEvent::Color(opt_path_view(key), color)));
        proof {
            let rgb = seq![color.0[0], color.0[1], color.0[2]];
            assert(self.log@.drop_last() =~= old(self).log@);
            assert(self.generator@.dom() =~= old(self).generator@.dom().insert(rgb));
            assert(self.generator@.dom() =~= sp_log_rgbs(self.log@));
        }
    }

    fn visit_background(&mut self, key: BorrowedModifierPath<'_>, color: HexColor) {
        self.generator.feed(color);
        self.log = Ghost(self.log@.push(VisitEvent::Background(key@, color)));
        proof {
            let rgb = seq![color.0[0], color.0[1], color.0[2]];
            assert(self.log@.drop_last() =~= old(self).log@);
            assert(self.generator@.dom() =~= old(self).generator@.dom().insert(rgb));
            assert(self.generator@.dom() =~= sp_log_rgbs(self.log@));
        }
    }

    fn visit_font_weight(&mut self, key: BorrowedModifierPath<'_>, weight: u16) {
        self.log = Ghost(self.log@.push(VisitEvent::FontWeight(key@, weight)));
        proof {
            assert(self.log@.drop_last() =~= old(self).log@);
            assert(self.generator@.dom() =~= sp_log_rgbs(self.log@));
        }
    }

    fn visit_font_style(&mut self, key: BorrowedModifierPath<'_>, style: &str) {
        self.log = Ghost(self.log@.push(VisitEvent::FontStyle(key@, style@)));
        proof {
            assert(self.log@.drop_last() =~= old(self).log@);
            assert(self.generator@.dom() =~= sp_log_rgbs(self.log@));
        }
    }
}

/// Appends `path` under the first group holding `key`, opening a new
/// group at the end for a value not seen before.
pub open spec fn sp_minsert<K>(
    gs: Seq<(K, Seq<PathView>)>,
    key: K,
    path: PathView,
) -> Seq<(K, Seq<PathView>)>
    decreases gs.len(),
{
    if gs.len() == 0 {
        seq![(key, seq![path])]
    } else if gs[0].0 == key {
        seq![(gs[0].0, gs[0].1.push(path))] + gs.drop_first()
    } else {
        seq![gs[0]] + sp_minsert(gs.drop_first(), key, path)
    }
}

/// When the first occurrence of the key is at index `k`, the insert is
/// an update at `k`.
proof fn lemma_minsert_at<K>(gs: Seq<(K, Seq<PathView>)>, k: int, key: K, path: PathView)
    requires
        0 <= k < gs.len(),
        gs[k].0 == key,
        forall|i: int| 0 <= i < k ==> (#[trigger] gs[i]).0 != key,
    ensures
        sp_minsert(gs, key, path) == gs.update(k, (gs[k].0, gs[k].1.push(path))),
    decreases k,
{
    broadcast use vstd::seq::group_seq_axioms;

    if k == 0 {
        assert(sp_minsert(gs, key, path) =~= gs.update(0, (gs[0].0, gs[0].1.push(path))));
    } else {
        assert(gs.drop_first()[k - 1].0 == key);
        assert(forall|i: int| 0 <= i < k - 1 ==> (#[trigger] gs.drop_first()[i]).0 != key);
        lemma_minsert_at(gs.drop_first(), k - 1, key, path);
        assert(sp_minsert(gs, key, path) =~= gs.update(k, (gs[k].0, gs[k].1.push(path))));
    }
}

/// When the key occurs nowhere, the insert appends a fresh group.
proof fn lemma_minsert_absent<K>(gs: Seq<(K, Seq<PathView>)>, key: K, path: PathView)
    requires
        forall|i: int| 0 <= i < gs.len() ==> (#[trigger] gs[i]).0 != key,
    ensures
        sp_minsert(gs, key, path) == gs.push((key, seq![path])),
    decreases gs.len(),
{
    broadcast use vstd::seq::group_seq_axioms;

    if gs.len() == 0 {
        assert(sp_minsert(gs, key, path) =~= gs.push((key, seq![path])));
    } else {
        assert(forall|i: int|
            0 <= i < gs.drop_first().len() ==> (#[trigger] gs.drop_first()[i]).0 != key);
        lemma_minsert_absent(gs.drop_first(), key, path);
        assert(sp_minsert(gs, key, path) =~= gs.push((key, seq![path])));
    }
}

/// The view of a color-keyed grouping.
pub open spec fn color_groups_view(s: Seq<(Color, Vec<ModifierPath>)>) -> Seq<
    (crate::color::ColorView, Seq<PathView>),
> {
    s.map_values(|p: (Color, Vec<ModifierPath>)| (p.0@, crate::schema::paths_view(p.1@)))
}

/// The view of a font-weight-keyed grouping.
pub open spec fn weight_groups_view(s: Seq<(u16, Vec<ModifierPath>)>) -> Seq<
    (u16, Seq<PathView>),
> {
    s.map_values(|p: (u16, Vec<ModifierPath>)| (p.0, crate::schema::paths_view(p.1@)))
}

/// The view of a font-style-keyed grouping.
pub open spec fn style_groups_view(s: Seq<(String, Vec<ModifierPath>)>) -> Seq<
    (Seq<char>, Seq<PathView>),
> {
    s.map_values(|p: (String, Vec<ModifierPath>)| (p.0@, crate::schema::paths_view(p.1@)))
}

fn group_insert_color(
    groups: &mut Vec<(Color, Vec<ModifierPath>)>,
    key: Color,
    path: ModifierPath,
)
    ensures
        color_groups_view(final(groups)@) == sp_minsert(
            color_groups_view(old(groups)@),
            key@,
            path@,
        ),
{
    let ghost pv = path@;
    let ghost kv = key@;
    let ghost gv0 = color_groups_view(groups@);
    let n = groups.len();
    let mut k: usize = 0;
    while k < n
        invariant
            n == groups@.len(),
            k <= n,
            pv == path@,
            kv == key@,
            gv0 == color_groups_view(groups@),
            groups@ == old(groups)@,
            forall|i: int| 0 <= i < k ==> (#[trigger] gv0[i]).0 != kv,
        decreases n - k,
    {
        if crate::color::color_eq(&groups[k].0, &key) {
            proof {
                assert(gv0[k as int].0 == kv);
            }
            let (ekey, mut epaths) = groups.remove(k);
            epaths.push(path);
            let ghost mid = groups@;
            let ghost epair = (ekey, epaths);
            groups.insert(k, (ekey, epaths));
            proof {
                mid.insert_ensures(k as int, epair);
                assert(groups@ =~= old(groups)@.update(
                    k as int,
                    (old(groups)@[k as int].0, epair.1),
                ));
                lemma_minsert_at(gv0, k as int, kv, pv);
                assert(color_groups_view(groups@) =~~= gv0.update(
                    k as int,
                    (gv0[k as int].0, gv0[k as int].1.push(pv)),
                ));
            }
            return ;
        }
        proof {
            assert(gv0[k as int].0 == groups@[k as int].0@);
        }
        k += 1;
    }
    let mut paths: Vec<ModifierPath> = Vec::new();
    paths.push(path);
    groups.push((key, paths));
    proof {
        lemma_minsert_absent(gv0, kv, pv);
        assert(color_groups_view(groups@) =~~= gv0.push((kv, seq![pv])));
    }
}

fn group_insert_weight(groups: &mut Vec<(u16, Vec<ModifierPath>)>, key: u16, path: ModifierPath)
    ensures
        weight_groups_view(final(groups)@) == sp_minsert(
            weight_groups_view(old(groups)@),
            key,
            path@,
        ),
{
    let ghost pv = path@;
    let ghost gv0 = weight_groups_view(groups@);
    let n = groups.len();
    let mut k: usize = 0;
    while k < n
        invariant
            n == groups@.len(),
            k <= n,
            pv == path@,
            gv0 == weight_groups_view(groups@),
            groups@ == old(groups)@,
            forall|i: int| 0 <= i < k ==> (#[trigger] gv0[i]).0 != key,
        decreases n - k,
    {
        if groups[k].0 == key {
            proof {
                assert(gv0[k as int].0 == key);
            }
            let (ekey, mut epaths) = groups.remove(k);
            epaths.push(path);
            let ghost mid = groups@;
            let ghost epair = (ekey, epaths);
            groups.insert(k, (ekey, epaths));
            proof {
                mid.insert_ensures(k as int, epair);
                lemma_minsert_at(gv0, k as int, key, pv);
                assert(weight_groups_view(groups@) =~~= gv0.update(
                    k as int,
                    (gv0[k as int].0, gv0[k as int].1.push(pv)),
                ));
            }
            return ;
        }
        proof {
            assert(gv0[k as int].0 == groups@[k as int].0);
        }
        k += 1;
    }
    let mut paths: Vec<ModifierPath> = Vec::new();
    paths.push(path);
    groups.push((key, paths));
    proof {
        lemma_minsert_absent(gv0, key, pv);
        assert(weight_groups_view(groups@) =~~= gv0.push((key, seq![pv])));
    }
}

fn group_insert_style(
    groups: &mut Vec<(String, Vec<ModifierPath>)>,
    key: String,
    path: ModifierPath,
)
    ensures
        style_groups_view(final(groups)@) == sp_minsert(
            style_groups_view(old(groups)@),
            key@,
            path@,
        ),
{
    let ghost pv = path@;
    let ghost kv = key@;
    let ghost gv0 = style_groups_view(groups@);
    let n = groups.len();
    let mut k: usize = 0;
    while k < n
        invariant
            n == groups@.len(),
            k <= n,
            pv == path@,
            kv == key@,
            gv0 == style_groups_view(groups@),
            groups@ == old(groups)@,
            forall|i: int| 0 <= i < k ==> (#[trigger] gv0[i]).0 != kv,
        decreases n - k,
    {
        if groups[k].0.eq(&key) {
            proof {
                assert(gv0[k as int].0 == kv);
            }
            let (ekey, mut epaths) = groups.remove(k);
            epaths.push(path);
            let ghost mid = groups@;
            let ghost epair = (ekey, epaths);
            groups.insert(k, (ekey, epaths));
            proof {
                mid.insert_ensures(k as int, epair);
                lemma_minsert_at(gv0, k as int, kv, pv);
                assert(style_groups_view(groups@) =~~= gv0.update(
                    k as int,
                    (gv0[k as int].0, gv0[k as int].1.push(pv)),
                ));
            }
            return ;
        }
        proof {
            assert(gv0[k as int].0 == groups@[k as int].0@);
        }
        k += 1;
    }
    let mut paths: Vec<ModifierPath> = Vec::new();
    paths.push(path);
    groups.push((key, paths));
    proof {
        lemma_minsert_absent(gv0, kv, pv);
        assert(style_groups_view(groups@) =~~= gv0.push((kv, seq![pv])));
    }
}

/// The four value groupings as one abstract state.
#[verifier::ext_equal]
pub struct GroupState {
    pub colors: Seq<(crate::color::ColorView, Seq<PathView>)>,
    pub background: Seq<(crate::color::ColorView, Seq<PathView>)>,
    pub font_weight: Seq<(u16, Seq<PathView>)>,
    pub font_style: Seq<(Seq<char>, Seq<PathView>)>,
}

pub open spec fn sp_empty_groups() -> GroupState {
    GroupState {
        colors: Seq::empty(),
        background: Seq::empty(),
        font_weight: Seq::empty(),
        font_style: Seq::empty(),
    }
}

/// How one traversal event changes the groupings: targeted colors and
/// backgrounds are looked up through the generator and grouped under
/// the resulting compact color; font attributes are grouped by value;
/// untargeted player colors and whole-scope events group nothing.
pub open spec fn sp_group_step(
    g: Map<Seq<u8>, Seq<char>>,
    st: GroupState,
    e: VisitEvent,
) -> GroupState {
    match e {
        VisitEvent::Color(Some(p), h) => GroupState {
            colors: sp_minsert(st.colors, crate::namer::spec_gen_lookup(g, h), p),
            ..st
        },
        VisitEvent::Color(None, _) => st,
        VisitEvent::Background(p, h) => GroupState {
            background: sp_minsert(st.background, crate::namer::spec_gen_lookup(g, h), p),
            ..st
        },
        VisitEvent::FontWeight(p, w) => GroupState {
            font_weight: sp_minsert(st.font_weight, w, p),
            ..st
        },
        VisitEvent::FontStyle(p, fs) => GroupState {
            font_style: sp_minsert(st.font_style, fs, p),
            ..st
        },
        VisitEvent::Scope(_, _) => st,
    }
}

/// The groupings a whole log builds, event by event.
pub open spec fn sp_group_log(g: Map<Seq<u8>, Seq<char>>, log: Seq<VisitEvent>) -> GroupState
    decreases log.len(),
{
    if log.len() == 0 {
        sp_empty_groups()
    } else {
        sp_group_step(g, sp_group_log(g, log.drop_last()), log.last())
    }
}

/// The regrouping pass: collects, for every distinct attribute value,
/// the targets it was observed at; its state is exactly the groupings
/// its event log builds.
pub struct ModifierVisitor<'a> {
    pub colors: Vec<(Color, Vec<ModifierPath>)>,
    pub background: Vec<(Color, Vec<ModifierPath>)>,
    pub font_weight: Vec<(u16, Vec<ModifierPath>)>,
    pub font_style: Vec<(String, Vec<ModifierPath>)>,
    pub palette: &'a PaletteGenerator,
    pub log: Ghost<Seq<VisitEvent>>,
}

impl<'a> ModifierVisitor<'a> {
    /// The abstract grouping state.
    pub open spec fn state(&self) -> GroupState {
        GroupState {
            colors: color_groups_view(self.colors@),
            background: color_groups_view(self.background@),
            font_weight: weight_groups_view(self.font_weight@),
            font_style: style_groups_view(self.font_style@),
        }
    }

    pub fn new(palette: &'a PaletteGenerator) -> (r: Self)
        requires
            palette.wf(),
        ensures
            r.inv(),
            r.log() == Seq::<VisitEvent>::empty(),
            r.palette == palette,
    {
        let r = ModifierVisitor {
            colors: Vec::new(),
            background: Vec::new(),
            font_weight: Vec::new(),
            font_style: Vec::new(),
            palette,
            log: Ghost(Seq::empty()),
        };
        proof {
            assert(r.state() =~~= sp_empty_groups());
        }
        r
    }

    /// Emits one modifier per value group, in grouping order: color
    /// groups first, then background, font style and font weight
    /// groups; each modifier's action carries exactly its group's
    /// value in the one field the group is about, and its apply list
    /// is the group's recorded target list.
    pub fn into_modifiers(self) -> (r: Vec<Modifier>)
        ensures
            modifiers_view(r@) == sp_mods_of_state(self.state()),
            forall|k: int|
                0 <= k < r@.len() ==> sp_single_field((#[trigger] r@[k])@.action),
    {
        let mut modifiers: Vec<Modifier> = Vec::new();
        let ghost st = self.state();
        let ModifierVisitor { colors, background, font_weight, font_style, palette: _, log: _ } =
            self;
        proof {
            assert(modifiers_view(modifiers@) =~= sp_mods_color(st.colors.take(0))) by {
                assert(st.colors.take(0) =~= Seq::<
                    (crate::color::ColorView, Seq<PathView>),
                >::empty());
            }
        }
        let n = colors.len();
        let mut i: usize = 0;
        while i < n
            invariant
                n == colors@.len(),
                st.colors == color_groups_view(colors@),
                i <= n,
                modifiers_view(modifiers@) == sp_mods_color(st.colors.take(i as int)),
            decreases n - i,
        {
            let ghost acc0 = modifiers_view(modifiers@);
            let pair = &colors[i];
            let action = Action {
                color: Some(crate::schema::color_clone(&pair.0)),
                background: None,
                font_weight: None,
                font_style: None,
            };
            modifiers.push(Modifier { apply: crate::schema::paths_clone(&pair.1), action });
            proof {
                assert(st.colors.take(i + 1).drop_last() =~= st.colors.take(i as int));
                assert(st.colors.take(i + 1).last() == st.colors[i as int]);
                assert(modifiers_view(modifiers@) =~= acc0.push(
                    sp_color_mod(st.colors[i as int]),
                ));
                assert(modifiers_view(modifiers@) =~= sp_mods_color(st.colors.take(i + 1)));
            }
            i += 1;
        }
        proof {
            assert(st.colors.take(n as int) =~= st.colors);
        }
        let ghost base1 = modifiers_view(modifiers@);
        let n = background.len();
        let mut i: usize = 0;
        proof {
            assert(background@.take(0) =~= Seq::<(Color, Vec<ModifierPath>)>::empty());
            assert(base1 + sp_mods_bg(st.background.take(0)) =~= base1);
        }
        while i < n
            invariant
                n == background@.len(),
                st.background == color_groups_view(background@),
                i <= n,
                modifiers_view(modifiers@) == base1 + sp_mods_bg(st.background.take(i as int)),
            decreases n - i,
        {
            let ghost acc0 = modifiers_view(modifiers@);
            let pair = &background[i];
            let action = Action {
                color: None,
                background: Some(crate::schema::color_clone(&pair.0)),
                font_weight: None,
                font_style: None,
            };
            modifiers.push(Modifier { apply: crate::schema::paths_clone(&pair.1), action });
            proof {
                assert(st.background.take(i + 1).drop_last() =~= st.background.take(i as int));
                assert(st.background.take(i + 1).last() == st.background[i as int]);
                assert(modifiers_view(modifiers@) =~= acc0.push(
                    sp_bg_mod(st.background[i as int]),
                ));
                assert(modifiers_view(modifiers@) =~= base1 + sp_mods_bg(
                    st.background.take(i + 1),
                ));
            }
            i += 1;
        }
        proof {
            assert(st.background.take(n as int) =~= st.background);
        }
        let ghost base2 = modifiers_view(modifiers@);
        let n = font_style.len();
        let mut i: usize = 0;
        proof {
            assert(base2 + sp_mods_fs(st.font_style.take(0)) =~= base2);
        }
        while i < n
            invariant
                n == font_style@.len(),
                st.font_style == style_groups_view(font_style@),
                i <= n,
                modifiers_view(modifiers@) == base2 + sp_mods_fs(st.font_style.take(i as int)),
            decreases n - i,
        {
            let ghost acc0 = modifiers_view(modifiers@);
            let pair = &font_style[i];
            let action = Action {
                color: None,
                background: None,
                font_weight: None,
                font_style: Some(pair.0.clone()),
            };
            modifiers.push(Modifier { apply: crate::schema::paths_clone(&pair.1), action });
            proof {
                assert(st.font_style.take(i + 1).drop_last() =~= st.font_style.take(i as int));
                assert(st.font_style.take(i + 1).last() == st.font_style[i as int]);
                assert(modifiers_view(modifiers@) =~= acc0.push(
                    sp_fs_mod(st.font_style[i as int]),
                ));
                assert(modifiers_view(modifiers@) =~= base2 + sp_mods_fs(
                    st.font_style.take(i + 1),
                ));
            }
            i += 1;
        }
        proof {
            assert(st.font_style.take(n as int) =~= st.font_style);
        }
        let ghost base3 = modifiers_view(modifiers@);
        let n = font_weight.len();
        let mut i: usize = 0;
        proof {
            assert(base3 + sp_mods_fw(st.font_weight.take(0)) =~= base3);
        }
        while i < n
            invariant
                n == font_weight@.len(),
                st.font_weight == weight_groups_view(font_weight@),
                i <= n,
                modifiers_view(modifiers@) == base3 + sp_mods_fw(st.font_weight.take(i as int)),
            decreases n - i,
        {
            let ghost acc0 = modifiers_view(modifiers@);
            let pair = &font_weight[i];
            let action = Action {
                color: None,
                background: None,
                font_weight: Some(pair.0),
                font_style: None,
            };
            modifiers.push(Modifier { apply: crate::schema::paths_clone(&pair.1), action });
            proof {
                assert(st.font_weight.take(i + 1).drop_last() =~= st.font_weight.take(i as int));
                assert(st.font_weight.take(i + 1).last() == st.font_weight[i as int]);
                assert(modifiers_view(modifiers@) =~= acc0.push(
                    sp_fw_mod(st.font_weight[i as int]),
                ));
                assert(modifiers_view(modifiers@) =~= base3 + sp_mods_fw(
                    st.font_weight.take(i + 1),
                ));
            }
            i += 1;
        }
        proof {
            assert(st.font_weight.take(n as int) =~= st.font_weight);
            assert(modifiers_view(modifiers@) =~= sp_mods_of_state(st));
            assert forall|k: int| 0 <= k < modifiers@.len() implies sp_single_field(
                (#[trigger] modifiers@[k])@.action,
            ) by {
                assert(modifiers_view(modifiers@)[k] == modifiers@[k]@);
            }
        }
        modifiers
    }
}

/// One color group as a modifier.
pub open spec fn sp_color_mod(p: (crate::color::ColorView, Seq<PathView>)) -> ModifierView {
    ModifierView {
        apply: p.1,
        action: crate::schema::ActionView {
            color: Some(p.0),
            background: None,
            font_weight: None,
            font_style: None,
        },
    }
}

pub open spec fn sp_bg_mod(p: (crate::color::ColorView, Seq<PathView>)) -> ModifierView {
    ModifierView {
        apply: p.1,
        action: crate::schema::ActionView {
            color: None,
            background: Some(p.0),
            font_weight: None,
            font_style: None,
        },
    }
}

pub open spec fn sp_fs_mod(p: (Seq<char>, Seq<PathView>)) -> ModifierView {
    ModifierView {
        apply: p.1,
        action: crate::schema::ActionView {
            color: None,
            background: None,
            font_weight: None,
            font_style: Some(p.0),
        },
    }
}

pub open spec fn sp_fw_mod(p: (u16, Seq<PathView>)) -> ModifierView {
    ModifierView {
        apply: p.1,
        action: crate::schema::ActionView {
            color: None,
            background: None,
            font_weight: Some(p.0),
            font_style: None,
        },
    }
}

pub open spec fn sp_mods_color(gs: Seq<(crate::color::ColorView, Seq<PathView>)>) -> Seq<
    ModifierView,
> {
    gs.map_values(|p: (crate::color::ColorView, Seq<PathView>)| sp_color_mod(p))
}

pub open spec fn sp_mods_bg(gs: Seq<(crate::color::ColorView, Seq<PathView>)>) -> Seq<
    ModifierView,
> {
    gs.map_values(|p: (crate::color::ColorView, Seq<PathView>)| sp_bg_mod(p))
}

pub open spec fn sp_mods_fs(gs: Seq<(Seq<char>, Seq<PathView>)>) -> Seq<ModifierView> {
    gs.map_values(|p: (Seq<char>, Seq<PathView>)| sp_fs_mod(p))
}

pub open spec fn sp_mods_fw(gs: Seq<(u16, Seq<PathView>)>) -> Seq<ModifierView> {
    gs.map_values(|p: (u16, Seq<PathView>)| sp_fw_mod(p))
}

/// One modifier per value group, in grouping order.
pub open spec fn sp_mods_of_state(st: GroupState) -> Seq<ModifierView> {
    sp_mods_color(st.colors) + sp_mods_bg(st.background) + sp_mods_fs(st.font_style)
        + sp_mods_fw(st.font_weight)
}

/// Exactly one of the four action fields is set.
pub open spec fn sp_single_field(a: crate::schema::ActionView) -> bool {
    match (a.color, a.background, a.font_weight, a.font_style) {
        (Some(_), None, None, None) => true,
        (None, Some(_), None, None) => true,
        (None, None, Some(_), None) => true,
        (None, None, None, Some(_)) => true,
        _ => false,
    }
}

impl<'a> StyleVisitor for ModifierVisitor<'a> {
    open spec fn inv(&self) -> bool {
        self.palette.wf() && self.state() == sp_group_log(self.palette@, self.log@)
    }

    open spec fn log(&self) -> Seq<VisitEvent> {
        self.log@
    }

    open spec fn gen(&self) -> Map<Seq<u8>, Seq<char>> {
        self.palette@
    }

    fn visit_syntax(&mut self, path: BorrowedModifierPath<'_>, syntax: &Syntax) {
        self.log = Ghost(self.log@.push(VisitEvent::Scope(path@, syntax@)));
        proof {
            assert(self.log@.drop_last() =~= old(self).log@);
        }
    }

    fn visit_color(&mut self, key: Option<BorrowedModifierPath<'_>>, color: HexColor) {
        match key {
            None => {
                self.log = Ghost(self.log@.push(VisitEvent::Color(None, color)));
                proof {
                    assert(self.log@.drop_last() =~= old(self).log@);
                }
            },
            Some(path) => {
                let named = self.palette.lookup(color);
                group_insert_color(&mut self.colors, named, path.into_owned());
                self.log = Ghost(self.log@.push(VisitEvent::Color(Some(path@), color)));
                proof {
                    assert(self.log@.drop_last() =~= old(self).log@);
                    assert(self.state() =~~= sp_group_log(self.palette@, self.log@));
                }
            },
        }
    }

    fn visit_background(&mut self, key: BorrowedModifierPath<'_>, color: HexColor) {
        let named = self.palette.lookup(color);
        group_insert_color(&mut self.background, named, key.into_owned());
        self.log = Ghost(self.log@.push(VisitEvent::Background(key@, color)));
        proof {
            assert(self.log@.drop_last() =~= old(self).log@);
            assert(self.state() =~~= sp_group_log(self.palette@, self.log@));
        }
    }

    fn visit_font_weight(&mut self, key: BorrowedModifierPath<'_>, weight: u16) {
        group_insert_weight(&mut self.font_weight, weight, key.into_owned());
        self.log = Ghost(self.log@.push(VisitEvent::FontWeight(key@, weight)));
        proof {
            assert(self.log@.drop_last() =~= old(self).log@);
            assert(self.state() =~~= sp_group_log(self.palette@, self.log@));
        }
    }

    fn visit_font_style(&mut self, key: BorrowedModifierPath<'_>, style: &str) {
        group_insert_style(&mut self.font_style, style.to_owned(), key.into_owned());
        self.log = Ghost(self.log@.push(VisitEvent::FontStyle(key@, style@)));
        proof {
            assert(self.log@.drop_last() =~= old(self).log@);
            assert(self.state() =~~= sp_group_log(self.palette@, self.log@));
        }
    }
}

/// How one flat player record reads back in compact form: each slot
/// goes through the generator's lookup.
pub open spec fn sp_translate_player(
    g: Map<Seq<u8>, Seq<char>>,
    p: crate::flat::FlatPlayerView,
) -> crate::schema::PlayerView {
    crate::schema::PlayerView {
        cursor: match p.cursor {
            Some(h) => Some(crate::namer::spec_gen_lookup(g, h)),
            None => None,
        },
        background: match p.background {
            Some(h) => Some(crate::namer::spec_gen_lookup(g, h)),
            None => None,
        },
        selection: match p.selection {
            Some(h) => Some(crate::namer::spec_gen_lookup(g, h)),
            None => None,
        },
    }
}

pub open spec fn sp_translate_players(
    g: Map<Seq<u8>, Seq<char>>,
    ps: Seq<crate::flat::FlatPlayerView>,
) -> Seq<crate::schema::PlayerView> {
    ps.map_values(|p: crate::flat::FlatPlayerView| sp_translate_player(g, p))
}

/// Converts one flat theme's player list through the generator.
fn translate_players(generator: &PaletteGenerator, theme: &JsonTheme) -> (r: Vec<Player>)
    requires
        generator.wf(),
        distinct_style_keys(theme.style@),
    ensures
        ({
            let sm = crate::flat::style_map(theme.style@);
            if sm.dom().contains("players"@) {
                match sm["players"@] {
                    crate::flat::EntryView::Players(ps) => crate::schema::players_view(r@)
                        == sp_translate_players(generator@, ps),
                    _ => crate::schema::players_view(r@) == Seq::<
                        crate::schema::PlayerView,
                    >::empty(),
                }
            } else {
                crate::schema::players_view(r@) == Seq::<crate::schema::PlayerView>::empty()
            }
        }),
{
    let players_key = String::from_str("players");
    let mut out: Vec<Player> = Vec::new();
    proof {
        assert(crate::schema::players_view(out@) =~= Seq::<crate::schema::PlayerView>::empty());
    }
    match crate::compile::style_get(&theme.style, &players_key) {
        Some(StyleEntry::Players(players)) => {
            let ghost g = generator@;
            let ghost psv = crate::flat::flat_players_view(players@);
            let n = players.len();
            let mut j: usize = 0;
            proof {
                assert(psv.take(0) =~= Seq::<crate::flat::FlatPlayerView>::empty());
                assert(sp_translate_players(g, psv.take(0)) =~= Seq::<
                    crate::schema::PlayerView,
                >::empty());
            }
            while j < n
                invariant
                    n == players@.len(),
                    j <= n,
                    generator.wf(),
                    g == generator@,
                    psv == crate::flat::flat_players_view(players@),
                    crate::schema::players_view(out@) == sp_translate_players(
                        g,
                        psv.take(j as int),
                    ),
                decreases n - j,
            {
                let ghost acc0 = crate::schema::players_view(out@);
                let p = &players[j];
                out.push(
                    Player {
                        cursor: match p.cursor {
                            Some(h) => Some(generator.lookup(h)),
                            None => None,
                        },
                        selection: match p.selection {
                            Some(h) => Some(generator.lookup(h)),
                            None => None,
                        },
                        background: match p.background {
                            Some(h) => Some(generator.lookup(h)),
                            None => None,
                        },
                    },
                );
                proof {
                    assert(psv[j as int] == players@[j as int]@);
                    assert(crate::schema::players_view(out@) =~= acc0.push(
                        sp_translate_player(g, psv[j as int]),
                    ));
                    assert(sp_translate_players(g, psv.take(j + 1)) =~= sp_translate_players(
                        g,
                        psv.take(j as int),
                    ).push(sp_translate_player(g, psv[j as int])));
                }
                j += 1;
            }
            proof {
                assert(psv.take(n as int) =~= psv);
            }
        },
        _ => {},
    }
    out
}

/// The events of every theme's style map, family order.
pub open spec fn sp_family_events(themes: Seq<JsonTheme>) -> Seq<VisitEvent>
    decreases themes.len(),
{
    if themes.len() == 0 {
        Seq::empty()
    } else {
        sp_family_events(themes.drop_last()) + sp_style_events(themes.last().style@)
    }
}

/// One decompiled theme: name and appearance are carried over, the
/// players are the slot-wise translation of the style's player list
/// through the generator's mapping `g`, and the modifiers are exactly
/// the value groupings the style's events build, one modifier each.
pub open spec fn sp_theme_decompiled(
    g: Map<Seq<u8>, Seq<char>>,
    source: JsonTheme,
    out: crate::schema::ThemeView,
) -> bool {
    &&& out.name == source.name@
    &&& out.appearance == source.appearance
    &&& out.modifiers == sp_mods_of_state(sp_group_log(g, sp_style_events(source.style@)))
    &&& ({
        let sm = crate::flat::style_map(source.style@);
        if sm.dom().contains("players"@) {
            match sm["players"@] {
                crate::flat::EntryView::Players(ps) => out.players == sp_translate_players(g, ps),
                _ => out.players == Seq::<crate::schema::PlayerView>::empty(),
            }
        } else {
            out.players == Seq::<crate::schema::PlayerView>::empty()
        }
    })
}

/// The authored palette is the generator's table, exactly: every named
/// triple appears opaque and unmodified under its name, and nothing
/// else appears.
pub open spec fn sp_palette_of_generator(
    g: Map<Seq<u8>, Seq<char>>,
    pal: Map<Seq<char>, crate::color::ColorView>,
) -> bool {
    &&& forall|rgb: Seq<u8>| #[trigger]
        g.dom().contains(rgb) ==> pal.dom().contains(g[rgb]) && pal[g[rgb]].modifiers
            == crate::color::ColorModifiers::spec_empty() && (pal[g[rgb]].base matches
        crate::color::BaseKind::Literal(h) && h.0@ == rgb.push(255u8))
    &&& forall|n: Seq<char>| #[trigger]
        pal.dom().contains(n) ==> exists|rgb: Seq<u8>| #[trigger] g.dom().contains(rgb)
            && g[rgb] == n
}

/// What common extraction leaves of a pre-extraction theme pair.
pub open spec fn sp_extraction_of(
    p0: crate::schema::ThemeView,
    p1: crate::schema::ThemeView,
    t0: crate::schema::ThemeView,
    t1: crate::schema::ThemeView,
    c: crate::schema::ThemeView,
) -> bool {
    &&& t0.name == p0.name && t0.appearance == p0.appearance
    &&& t1.name == p1.name && t1.appearance == p1.appearance
    &&& c.name == "common"@ && c.appearance == crate::schema::Appearance::Dark
    &&& c.players == crate::extract::seq_keep(
        p0.players,
        |p: crate::schema::PlayerView| p1.players.contains(p),
    )
    &&& t0.players == crate::extract::seq_keep(
        p0.players,
        |p: crate::schema::PlayerView| !c.players.contains(p),
    )
    &&& t1.players == crate::extract::seq_keep(
        p1.players,
        |p: crate::schema::PlayerView| !c.players.contains(p),
    )
    &&& t0.modifiers == crate::extract::discard_list(p0.modifiers, p0.modifiers, p1.modifiers)
    &&& t1.modifiers == crate::extract::discard_list(p1.modifiers, p0.modifiers, p1.modifiers)
    &&& forall|a: crate::schema::ActionView, t: PathView|
        crate::extract::common_has(c.modifiers, a, t) <==> crate::extract::in_inter(
            p0.modifiers,
            p1.modifiers,
            a,
            t,
        )
}

/// Everything decompilation guarantees, relative to the generator's
/// final mapping `g`: `g` names exactly the RGB triples observed in
/// the family's styles, the palette is `g`'s table, and each output
/// theme is the per-theme translation, passed through common
/// extraction when the family has exactly two variants.
pub open spec fn sp_decompiled_with(
    g: Map<Seq<u8>, Seq<char>>,
    input_themes: Seq<JsonTheme>,
    r: ThemeFamily,
) -> bool {
    &&& g.dom() == sp_log_rgbs(sp_family_events(input_themes))
    &&& sp_palette_of_generator(g, r.palette@)
    &&& r.themes@.len() == input_themes.len()
    &&& (input_themes.len() != 2 ==> forall|i: int|
        0 <= i < input_themes.len() ==> sp_theme_decompiled(
            g,
            input_themes[i],
            (#[trigger] r.themes@[i])@,
        ))
    &&& (input_themes.len() == 2 ==> (r.common matches Some(c) && (exists|
        p0: crate::schema::ThemeView,
        p1: crate::schema::ThemeView,
    |
        {
            &&& #[trigger] sp_theme_decompiled(g, input_themes[0], p0)
            &&& #[trigger] sp_theme_decompiled(g, input_themes[1], p1)
            &&& sp_extraction_of(p0, p1, r.themes@[0]@, r.themes@[1]@, c@)
        })))
}

/// A palette that is a generator's table resolves to the generator's
/// opaque colors: every assigned name maps to its triple, fully
/// opaque.
pub proof fn lemma_generator_palette_table(
    g: Map<Seq<u8>, Seq<char>>,
    pal: Map<Seq<char>, crate::color::ColorView>,
    rm: Map<Seq<char>, HexColor>,
)
    requires
        pal.dom().finite(),
        sp_palette_of_generator(g, pal),
        crate::palette::spec_resolves_to(pal, rm),
    ensures
        crate::namer::gen_table_of(g, rm),
{
    broadcast use vstd::array::group_array_axioms;

    assert forall|rgb: Seq<u8>| #[trigger] g.dom().contains(rgb) implies rm.dom().contains(
        g[rgb],
    ) && rm[g[rgb]].0@ == rgb.push(255u8) by {
        let name = g[rgb];
        assert(pal.dom().contains(name));
        match pal[name].base {
            crate::color::BaseKind::Literal(h) => {
                assert(crate::palette::rr(pal, name, Set::empty()) == Some(
                    crate::color::spec_apply_modifiers(h, pal[name].modifiers),
                ));
                assert(crate::color::spec_apply_modifiers(
                    h,
                    crate::color::ColorModifiers::spec_empty(),
                ).0 =~= h.0);
            },
            crate::color::BaseKind::Reference(_) => {},
        }
    }
}

/// The scoped round trip for players: the player records the
/// decompiler emits, compiled back against any resolution of the
/// emitted palette, are exactly the flat player records they came
/// from, alpha included.
pub proof fn lemma_players_roundtrip(
    g: Map<Seq<u8>, Seq<char>>,
    pal: Map<Seq<char>, crate::color::ColorView>,
    rm: Map<Seq<char>, HexColor>,
    ps: Seq<crate::flat::FlatPlayerView>,
)
    requires
        pal.dom().finite(),
        sp_palette_of_generator(g, pal),
        crate::palette::spec_resolves_to(pal, rm),
    ensures
        crate::compile::sp_players(rm, sp_translate_players(g, ps)) == Ok::<_, ErrorView>(ps),
    decreases ps.len(),
{
    broadcast use vstd::seq::group_seq_axioms;

    lemma_generator_palette_table(g, pal, rm);
    if ps.len() == 0 {
        assert(ps =~= Seq::<crate::flat::FlatPlayerView>::empty());
        assert(sp_translate_players(g, ps) =~= Seq::<crate::schema::PlayerView>::empty());
        assert(crate::compile::sp_players(rm, sp_translate_players(g, ps)) == Ok::<
            _,
            ErrorView,
        >(ps));
    } else {
        lemma_players_roundtrip(g, pal, rm, ps.drop_last());
        crate::compile::lemma_player_roundtrip(g, rm, ps.last());
        let ts = sp_translate_players(g, ps);
        assert(ts.len() == ps.len());
        assert(ts.drop_last() =~= sp_translate_players(g, ps.drop_last()));
        assert(ts.last() == sp_translate_player(g, ps.last()));
        assert(crate::compile::sp_players(rm, ts.drop_last()) == Ok::<_, ErrorView>(
            ps.drop_last(),
        ));
        assert(crate::compile::sp_player(rm, ts.last()) == Ok::<_, ErrorView>(ps.last()));
        assert(ps.drop_last().push(ps.last()) =~= ps);
        assert(crate::compile::sp_players(rm, ts) == Ok::<_, ErrorView>(ps));
    }
}

/// The scoped round trip for a flat style key: the color reference the
/// decompiler emits for a literal color, applied as a modifier and
/// resolved against any resolution of the emitted palette, writes back
/// exactly that literal color.
pub proof fn lemma_flat_color_roundtrip(
    g: Map<Seq<u8>, Seq<char>>,
    pal: Map<Seq<char>, crate::color::ColorView>,
    rm: Map<Seq<char>, HexColor>,
    style: Map<Seq<char>, crate::flat::EntryView>,
    path: Seq<char>,
    c: HexColor,
)
    requires
        pal.dom().finite(),
        sp_palette_of_generator(g, pal),
        crate::palette::spec_resolves_to(pal, rm),
        !crate::compile::starts_with_player(path),
    ensures
        crate::compile::sp_apply_action(
            style,
            rm,
            crate::schema::ActionView {
                color: Some(crate::namer::spec_gen_lookup(g, c)),
                background: None,
                font_weight: None,
                font_style: None,
            },
            PathView::Style(path),
        ) == Ok::<_, ErrorView>(
            style.insert(path, crate::flat::EntryView::Normal(Some(c))),
        ),
{
    lemma_generator_palette_table(g, pal, rm);
    crate::compile::lemma_style_color_roundtrip(g, rm, style, path, c);
}

/// Converts an existing flat theme family into the authored form: all
/// colors are extracted into a named palette, player lists are
/// translated through it, and every other attribute is regrouped by
/// value into one modifier per distinct value. With exactly two
/// variants the shared structure is factored into a `common` theme;
/// with any other count no extraction is attempted and no `common`
/// theme is made.
pub fn generate_kdl(theme_family: FlatFamily) -> (r: ThemeFamily)
    requires
        forall|i: int|
            0 <= i < theme_family.themes@.len() ==> distinct_style_keys(
                (#[trigger] theme_family.themes@[i]).style@,
            ),
    ensures
        r.meta@ == theme_family.meta@,
        r.themes@.len() == theme_family.themes@.len(),
        forall|i: int|
            0 <= i < r.themes@.len() ==> (#[trigger] r.themes@[i])@.name
                == theme_family.themes@[i]@.name && r.themes@[i]@.appearance
                == theme_family.themes@[i]@.appearance,
        r.palette.wf(),
        sorted_names(r.palette.colors@),
        crate::palette::resolvable(r.palette@),
        theme_family.themes@.len() != 2 ==> r.common is None,
        theme_family.themes@.len() == 2 ==> r.common is Some,
        exists|g: Map<Seq<u8>, Seq<char>>| #[trigger] sp_decompiled_with(
            g,
            theme_family.themes@,
            r,
        ),
{
    broadcast use vstd::set::group_set_axioms;

    let mut color_visitor = ColorVisitor::new();
    let nt = theme_family.themes.len();
    let mut i: usize = 0;
    proof {
        assert(theme_family.themes@.take(0) =~= Seq::<JsonTheme>::empty());
        assert(color_visitor.log() =~= sp_family_events(theme_family.themes@.take(0)));
    }
    while i < nt
        invariant
            nt == theme_family.themes@.len(),
            i <= nt,
            color_visitor.inv(),
            color_visitor.log() == sp_family_events(theme_family.themes@.take(i as int)),
        decreases nt - i,
    {
        let ghost lg0 = color_visitor.log();
        visit_styles(&mut color_visitor, &theme_family.themes[i].style);
        proof {
            assert(theme_family.themes@.take(i + 1).drop_last() =~= theme_family.themes@.take(
                i as int,
            ));
            assert(theme_family.themes@.take(i + 1).last() == theme_family.themes@[i as int]);
            assert(color_visitor.log() =~= sp_family_events(theme_family.themes@.take(i + 1)));
        }
        i += 1;
    }
    proof {
        assert(theme_family.themes@.take(nt as int) =~= theme_family.themes@);
    }
    let palette_generator = color_visitor.into_inner();
    let ghost g = palette_generator@;
    proof {
        assert(g.dom() == sp_log_rgbs(sp_family_events(theme_family.themes@)));
    }

    let mut themes: Vec<Theme> = Vec::new();
    let mut i: usize = 0;
    while i < nt
        invariant
            nt == theme_family.themes@.len(),
            i <= nt,
            palette_generator.wf(),
            g == palette_generator@,
            themes@.len() == i,
            forall|k: int|
                0 <= k < theme_family.themes@.len() ==> distinct_style_keys(
                    (#[trigger] theme_family.themes@[k]).style@,
                ),
            forall|k: int|
                0 <= k < i ==> sp_theme_decompiled(
                    g,
                    theme_family.themes@[k],
                    (#[trigger] themes@[k])@,
                ),
        decreases nt - i,
    {
        let theme = &theme_family.themes[i];
        let players = translate_players(&palette_generator, theme);
        let mut modifier_visitor = ModifierVisitor::new(&palette_generator);
        visit_styles(&mut modifier_visitor, &theme.style);
        proof {
            assert(modifier_visitor.log@ =~= sp_style_events(theme.style@));
            assert(modifier_visitor.palette@ == g);
        }
        let modifiers = modifier_visitor.into_modifiers();
        let kdl_theme = Theme {
            name: theme.name.clone(),
            appearance: theme.appearance,
            players,
            modifiers,
        };
        themes.push(kdl_theme);
        proof {
            assert(sp_theme_decompiled(g, theme_family.themes@[i as int], themes@[i as int]@));
        }
        i += 1;
    }

    let resolved = palette_generator.into_resolved_palette();
    let ghost rmv = resolved@;
    proof {
        crate::palette::lemma_hex_entries_map_dom(resolved.colors@);
    }
    let palette = resolved.into_raw_palette();
    proof {
        assert(palette@.dom() =~= rmv.dom());
        crate::palette::lemma_literal_resolvable(palette@);
        assert(sp_palette_of_generator(g, palette@)) by {
            assert forall|rgb: Seq<u8>| #[trigger] g.dom().contains(rgb) implies palette@.dom().contains(
                g[rgb],
            ) && palette@[g[rgb]].modifiers == crate::color::ColorModifiers::spec_empty() && (
            palette@[g[rgb]].base matches crate::color::BaseKind::Literal(h) && h.0@ == rgb.push(
                255u8,
            )) by {
                assert(rmv.dom().contains(g[rgb]) && rmv[g[rgb]].0@ == rgb.push(255u8));
            }
        }
    }

    let mut common: Option<Theme> = None;
    if themes.len() == 2 {
        let ghost t0 = themes@[0]@;
        let ghost t1 = themes@[1]@;
        let mut second = themes.pop().unwrap();
        let mut first = themes.pop().unwrap();
        let c = first.extract_common(&mut second);
        themes.push(first);
        themes.push(second);
        proof {
            assert(themes@[0]@.name == t0.name && themes@[0]@.appearance == t0.appearance);
            assert(themes@[1]@.name == t1.name && themes@[1]@.appearance == t1.appearance);
            assert(sp_extraction_of(t0, t1, themes@[0]@, themes@[1]@, c@));
        }
        common = Some(c);
    }
    let r = ThemeFamily { meta: theme_family.meta, palette, themes, common };
    proof {
        if theme_family.themes@.len() == 2 {
            let c = r.common.unwrap();
            assert(exists|p0: crate::schema::ThemeView, p1: crate::schema::ThemeView|
                {
                    &&& #[trigger] sp_theme_decompiled(g, theme_family.themes@[0], p0)
                    &&& #[trigger] sp_theme_decompiled(g, theme_family.themes@[1], p1)
                    &&& sp_extraction_of(p0, p1, r.themes@[0]@, r.themes@[1]@, c@)
                });
        }
        assert(sp_decompiled_with(g, theme_family.themes@, r));
    }
    r
}

} // verus!
