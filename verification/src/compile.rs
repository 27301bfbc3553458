//! The forward style compiler: authored form to flat form.
//!
//! The palette is resolved once; the shared theme, when present, is
//! layered under every variant; and each variant's modifiers are then
//! applied in list order to their targets, so that a later modifier's
//! write wins over an earlier one for the same field of the same
//! target.
use crate::color::{ColorView, HexColor};
use crate::error::{ErrorView, ThemeError};
use crate::flat::{
    distinct_style_keys, flat_players_view, json_themes_view, lemma_style_map_dom,
    lemma_style_map_update, style_map, syntax_map, EntryView, JsonTheme, JsonThemeView, Player,
    StyleEntry, Syntax, SyntaxView,
};
use crate::palette::{
    error_describes, lemma_resolution_confluent, resolvable, spec_lookup, spec_resolves_to,
    ResolvedPalette,
};
use crate::schema::{
    opt_color_view, players_view, theme_clone, themes_view, Action, ActionView, ModifierPath,
    ModifierView, PathView, PlayerView, Theme, ThemeFamily, ThemeView,
};
use vstd::prelude::*;

verus! {

broadcast use vstd::seq::group_seq_axioms;

/// Whether a flat style key intrudes into the reserved player
/// namespace.
pub open spec fn starts_with_player(p: Seq<char>) -> bool {
    p.len() >= 6 && p.subrange(0, 6) == "player"@
}

/// The name a color reference points at; empty for a literal.
pub open spec fn sp_ref_name(c: ColorView) -> Seq<char> {
    match c.base {
        crate::color::BaseKind::Reference(n) => n,
        crate::color::BaseKind::Literal(_) => Seq::empty(),
    }
}

/// Translates an optional color slot: an absent slot keeps `keep`, a
/// present one is looked up and replaces it, failing on a dangling
/// reference.
pub open spec fn sp_opt_lookup(
    rm: Map<Seq<char>, HexColor>,
    oc: Option<ColorView>,
    keep: Option<HexColor>,
) -> Result<Option<HexColor>, ErrorView> {
    match oc {
        None => Ok(keep),
        Some(c) => match spec_lookup(rm, c) {
            Some(h) => Ok(Some(h)),
            None => Err(ErrorView::MissingReference(sp_ref_name(c))),
        },
    }
}

pub open spec fn sp_empty_syntax() -> SyntaxView {
    SyntaxView { color: None, background: None, font_weight: None, font_style: None }
}

/// One action applied to one target of a style map.
pub open spec fn sp_apply_action(
    style: Map<Seq<char>, EntryView>,
    rm: Map<Seq<char>, HexColor>,
    a: ActionView,
    target: PathView,
) -> Result<Map<Seq<char>, EntryView>, ErrorView> {
    match target {
        PathView::Style(path) => {
            if starts_with_player(path) {
                Err(ErrorView::InvalidTarget(path))
            } else {
                match a.color {
                    Some(c) => match spec_lookup(rm, c) {
                        Some(h) => Ok(style.insert(path, EntryView::Normal(Some(h)))),
                        None => Err(ErrorView::MissingReference(sp_ref_name(c))),
                    },
                    None => Ok(style),
                }
            }
        },
        PathView::Syntax(name) => {
            let se = if style.dom().contains("syntax"@) {
                style["syntax"@]
            } else {
                EntryView::Normal(None)
            };
            match se {
                EntryView::Syntax(sm) => {
                    let e0 = if sm.dom().contains(name) {
                        sm[name]
                    } else {
                        sp_empty_syntax()
                    };
                    match (sp_opt_lookup(rm, a.color, e0.color), sp_opt_lookup(
                        rm,
                        a.background,
                        e0.background,
                    )) {
                        (Ok(cc), Ok(bb)) => Ok(
                            style.insert(
                                "syntax"@,
                                EntryView::Syntax(
                                    sm.insert(
                                        name,
                                        SyntaxView {
                                            color: cc,
                                            background: bb,
                                            font_weight: match a.font_weight {
                                                Some(w) => Some(w),
                                                None => e0.font_weight,
                                            },
                                            font_style: match a.font_style {
                                                Some(fs) => Some(fs),
                                                None => e0.font_style,
                                            },
                                        },
                                    ),
                                ),
                            ),
                        ),
                        (Err(e), _) => Err(e),
                        (_, Err(e)) => Err(e),
                    }
                },
                _ => Err(ErrorView::InvalidTarget(name)),
            }
        },
    }
}

/// One action applied to a target list, left to right.
pub open spec fn sp_apply_targets(
    style: Map<Seq<char>, EntryView>,
    rm: Map<Seq<char>, HexColor>,
    a: ActionView,
    ts: Seq<PathView>,
) -> Result<Map<Seq<char>, EntryView>, ErrorView>
    decreases ts.len(),
{
    if ts.len() == 0 {
        Ok(style)
    } else {
        match sp_apply_targets(style, rm, a, ts.drop_last()) {
            Ok(s) => sp_apply_action(s, rm, a, ts.last()),
            Err(e) => Err(e),
        }
    }
}

/// A modifier list applied in order: later writes win.
pub open spec fn sp_apply_mods(
    style: Map<Seq<char>, EntryView>,
    rm: Map<Seq<char>, HexColor>,
    ms: Seq<ModifierView>,
) -> Result<Map<Seq<char>, EntryView>, ErrorView>
    decreases ms.len(),
{
    if ms.len() == 0 {
        Ok(style)
    } else {
        match sp_apply_mods(style, rm, ms.drop_last()) {
            Ok(s) => sp_apply_targets(s, rm, ms.last().action, ms.last().apply),
            Err(e) => Err(e),
        }
    }
}

/// One player record translated to literal colors.
pub open spec fn sp_player(
    rm: Map<Seq<char>, HexColor>,
    p: PlayerView,
) -> Result<crate::flat::FlatPlayerView, ErrorView> {
    match sp_opt_lookup(rm, p.cursor, None) {
        Err(e) => Err(e),
        Ok(cu) => match sp_opt_lookup(rm, p.selection, None) {
            Err(e) => Err(e),
            Ok(se) => match sp_opt_lookup(rm, p.background, None) {
                Err(e) => Err(e),
                Ok(bg) => Ok(
                    crate::flat::FlatPlayerView { cursor: cu, background: bg, selection: se },
                ),
            },
        },
    }
}

/// A player list translated in order.
pub open spec fn sp_players(
    rm: Map<Seq<char>, HexColor>,
    ps: Seq<PlayerView>,
) -> Result<Seq<crate::flat::FlatPlayerView>, ErrorView>
    decreases ps.len(),
{
    if ps.len() == 0 {
        Ok(Seq::empty())
    } else {
        match sp_players(rm, ps.drop_last()) {
            Ok(pre) => match sp_player(rm, ps.last()) {
                Ok(p) => Ok(pre.push(p)),
                Err(e) => Err(e),
            },
            Err(e) => Err(e),
        }
    }
}

/// The style map every compiled theme starts from: its players and an
/// empty syntax map.
pub open spec fn sp_init_style(ps: Seq<crate::flat::FlatPlayerView>) -> Map<Seq<char>, EntryView> {
    Map::empty().insert("players"@, EntryView::Players(ps)).insert(
        "syntax"@,
        EntryView::Syntax(Map::empty()),
    )
}

/// One theme compiled against a resolved palette.
pub open spec fn sp_compile_theme(
    rm: Map<Seq<char>, HexColor>,
    t: ThemeView,
) -> Result<JsonThemeView, ErrorView> {
    match sp_players(rm, t.players) {
        Err(e) => Err(e),
        Ok(ps) => match sp_apply_mods(sp_init_style(ps), rm, t.modifiers) {
            Err(e) => Err(e),
            Ok(st) => Ok(JsonThemeView { name: t.name, appearance: t.appearance, style: st }),
        },
    }
}

/// A theme with the shared theme layered underneath.
pub open spec fn sp_merged(common: Option<ThemeView>, t: ThemeView) -> ThemeView {
    match common {
        None => t,
        Some(c) => ThemeView {
            name: t.name,
            appearance: t.appearance,
            players: c.players + t.players,
            modifiers: c.modifiers + t.modifiers,
        },
    }
}

/// Every theme compiled in order; the first failure aborts the run.
pub open spec fn sp_compile_all(
    rm: Map<Seq<char>, HexColor>,
    ts: Seq<ThemeView>,
    common: Option<ThemeView>,
) -> Result<Seq<JsonThemeView>, ErrorView>
    decreases ts.len(),
{
    if ts.len() == 0 {
        Ok(Seq::empty())
    } else {
        match sp_compile_all(rm, ts.drop_last(), common) {
            Ok(pre) => match sp_compile_theme(rm, sp_merged(common, ts.last())) {
                Ok(t) => Ok(pre.push(t)),
                Err(e) => Err(e),
            },
            Err(e) => Err(e),
        }
    }
}

/// The view of the optional shared theme.
pub open spec fn opt_theme_view(t: Option<Theme>) -> Option<ThemeView> {
    match t {
        Some(x) => Some(x@),
        None => None,
    }
}

fn starts_with_player_exec(path: &String) -> (r: bool)
    ensures
        r == starts_with_player(path@),
{
    proof {
        reveal_strlit("player");
    }
    let n = path.as_str().unicode_len();
    if n < 6 {
        return false;
    }
    let s = path.as_str();
    let r = s.get_char(0) == 'p' && s.get_char(1) == 'l' && s.get_char(2) == 'a' && s.get_char(3)
        == 'y' && s.get_char(4) == 'e' && s.get_char(5) == 'r';
    proof {
        if r {
            assert(path@.subrange(0, 6) =~= "player"@);
        } else {
            assert(path@.subrange(0, 6) != "player"@) by {
                if path@.subrange(0, 6) == "player"@ {
                    assert(path@.subrange(0, 6)[0] == path@[0]);
                    assert(path@.subrange(0, 6)[1] == path@[1]);
                    assert(path@.subrange(0, 6)[2] == path@[2]);
                    assert(path@.subrange(0, 6)[3] == path@[3]);
                    assert(path@.subrange(0, 6)[4] == path@[4]);
                    assert(path@.subrange(0, 6)[5] == path@[5]);
                }
            }
        }
    }
    r
}

/// Looks an optional color slot up, keeping `keep` when absent.
fn opt_lookup(
    palette: &ResolvedPalette,
    oc: &Option<crate::color::Color>,
    keep: Option<HexColor>,
) -> (r: Result<Option<HexColor>, ThemeError>)
    requires
        palette.wf(),
    ensures
        match r {
            Ok(v) => sp_opt_lookup(palette@, opt_color_view(*oc), keep) == Ok::<_, ErrorView>(v),
            Err(e) => sp_opt_lookup(palette@, opt_color_view(*oc), keep) == Err::<
                Option<HexColor>,
                _,
            >(e@),
        },
{
    match oc {
        None => Ok(keep),
        Some(c) => match palette.lookup(c) {
            Ok(h) => Ok(Some(h)),
            Err(e) => {
                proof {
                    assert(e@ == ErrorView::MissingReference(sp_ref_name(c@)));
                }
                Err(e)
            },
        },
    }
}

/// Replaces or appends the entry under `key`.
fn style_set(style: &mut Vec<(String, StyleEntry)>, key: &String, v: StyleEntry)
    requires
        distinct_style_keys(old(style)@),
    ensures
        distinct_style_keys(final(style)@),
        style_map(final(style)@) == style_map(old(style)@).insert(key@, v@),
{
    let n = style.len();
    let mut k: usize = 0;
    while k < n
        invariant
            n == style@.len(),
            k <= n,
            style@ == old(style)@,
            distinct_style_keys(style@),
            forall|i: int| 0 <= i < k ==> #[trigger] style@[i].0@ != key@,
        decreases n - k,
    {
        if style[k].0.eq(key) {
            let ghost s0 = style@;
            style.set(k, (key.clone(), v));
            proof {
                assert(distinct_style_keys(s0));
                assert(style@[k as int].0@ == s0[k as int].0@);
                lemma_style_map_update(s0, k as int, style@[k as int]);
            }
            return ;
        }
        k += 1;
    }
    let ghost s0 = style@;
    style.push((key.clone(), v));
    proof {
        assert(style@.drop_last() =~= s0);
        assert forall|i: int, j: int| 0 <= i < j < style@.len() implies style@[i].0@
            != style@[j].0@ by {
            if j < style@.len() - 1 {
                assert(style@[i] == s0[i]);
                assert(style@[j] == s0[j]);
            } else {
                assert(style@[i] == s0[i]);
            }
        }
    }
}

/// Finds the entry under `key`.
pub fn style_get<'a>(style: &'a Vec<(String, StyleEntry)>, key: &String) -> (r: Option<&'a StyleEntry>)
    requires
        distinct_style_keys(style@),
    ensures
        match r {
            Some(e) => style_map(style@).dom().contains(key@) && e@ == style_map(style@)[key@],
            None => !style_map(style@).dom().contains(key@),
        },
{
    proof {
        lemma_style_map_dom(style@);
    }
    let n = style.len();
    let mut k: usize = 0;
    while k < n
        invariant
            n == style@.len(),
            k <= n,
            distinct_style_keys(style@),
            forall|i: int| 0 <= i < k ==> #[trigger] style@[i].0@ != key@,
        decreases n - k,
    {
        if style[k].0.eq(key) {
            proof {
                assert forall|j: int| k < j < style@.len() implies style@[j].0@ != style@[
                    k as int
                ].0@ by {}
                crate::flat::lemma_style_map_value(style@, k as int);
            }
            return Some(&style[k].1);
        }
        k += 1;
    }
    None
}

/// Applies whichever fields of the action the syntax namespace takes
/// to one scope entry, creating the entry when it is new. Every field
/// the action carries is overwritten independently; fields the action
/// omits keep their value from earlier modifiers.
fn process_syntax_path(
    action: &Action,
    palette: &ResolvedPalette,
    base: &mut JsonTheme,
    path: &String,
) -> (r: Result<(), ThemeError>)
    requires
        palette.wf(),
        distinct_style_keys(old(base).style@),
    ensures
        distinct_style_keys(final(base).style@),
        final(base).name@ == old(base).name@,
        final(base).appearance == old(base).appearance,
        match r {
            Ok(_) => sp_apply_action(
                style_map(old(base).style@),
                palette@,
                action@,
                PathView::Syntax(path@),
            ) == Ok::<_, ErrorView>(style_map(final(base).style@)),
            Err(e) => sp_apply_action(
                style_map(old(base).style@),
                palette@,
                action@,
                PathView::Syntax(path@),
            ) == Err::<Map<Seq<char>, EntryView>, _>(e@) && final(base).style@ == old(
                base,
            ).style@,
        },
{
    let syntax_key = String::from_str("syntax");
    proof {
        reveal_strlit("syntax");
    }
    let entry = style_get(&base.style, &syntax_key);
    let mut sm: Vec<(String, Syntax)> = Vec::new();
    let ghost smv = Map::<Seq<char>, SyntaxView>::empty();
    match entry {
        Some(StyleEntry::Syntax(v)) => {
            // Copy the scope list to rebuild the entry.
            let n = v.len();
            let mut k: usize = 0;
            while k < n
                invariant
                    n == v@.len(),
                    k <= n,
                    sm@.len() == k,
                    forall|i: int| 0 <= i < k ==> #[trigger] sm@[i].0@ == v@[i].0@,
                    forall|i: int| 0 <= i < k ==> #[trigger] sm@[i].1@ == v@[i].1@,
                decreases n - k,
            {
                let p = &v[k];
                sm.push((p.0.clone(), syntax_clone_local(&p.1)));
                k += 1;
            }
            proof {
                assert(syntax_map(sm@) =~= syntax_map(v@)) by {
                    lemma_syntax_maps_equal(sm@, v@);
                }
            }
        },
        Some(_) => {
            return Err(ThemeError::InvalidTarget { path: path.clone() });
        },
        None => {
            return Err(ThemeError::InvalidTarget { path: path.clone() });
        },
    }
    let ghost sm0 = syntax_map(sm@);
    // The scope's current attributes, or fresh ones. A later entry
    // with the same name would win, so the scan keeps the last match.
    let mut e0 = Syntax { color: None, background: None, font_weight: None, font_style: None };
    let mut found = false;
    let mut fi: usize = 0;
    let n = sm.len();
    let mut k: usize = 0;
    proof {
        crate::flat::lemma_syntax_map_dom(sm@);
    }
    while k < n
        invariant
            n == sm@.len(),
            k <= n,
            sm0 == syntax_map(sm@),
            !found ==> e0@ == sp_empty_syntax(),
            !found ==> forall|i: int| 0 <= i < k ==> #[trigger] sm@[i].0@ != path@,
            found ==> fi < k && sm@[fi as int].0@ == path@ && e0@ == sm@[fi as int].1@ && (forall|
                i: int,
            |
                fi < i < k ==> #[trigger] sm@[i].0@ != path@),
        decreases n - k,
    {
        if sm[k].0.eq(path) {
            found = true;
            fi = k;
            e0 = syntax_clone_local(&sm[k].1);
        }
        k += 1;
    }
    proof {
        if found {
            crate::flat::lemma_syntax_map_value(sm@, fi as int);
            assert(sm0.dom().contains(path@) && sm0[path@] == e0@);
        } else {
            assert(!sm0.dom().contains(path@));
            assert(e0@ == sp_empty_syntax());
        }
    }
    let cc = match opt_lookup(palette, &action.color, e0.color) {
        Ok(v) => v,
        Err(e) => {
            return Err(e);
        },
    };
    let bb = match opt_lookup(palette, &action.background, e0.background) {
        Ok(v) => v,
        Err(e) => {
            return Err(e);
        },
    };
    let new_entry = Syntax {
        color: cc,
        background: bb,
        font_weight: match action.font_weight {
            Some(w) => Some(w),
            None => e0.font_weight,
        },
        font_style: match &action.font_style {
            Some(s) => Some(s.clone()),
            None => e0.font_style,
        },
    };
    let ghost nev = new_entry@;
    // Write the scope back: replace its last occurrence or append.
    if found {
        let ghost smseq0 = sm@;
        sm.set(fi, (path.clone(), new_entry));
        proof {
            lemma_syntax_map_set_last(smseq0, fi as int, sm@[fi as int]);
            assert(syntax_map(sm@) == sm0.insert(path@, nev));
        }
    } else {
        let ghost smseq0 = sm@;
        sm.push((path.clone(), new_entry));
        proof {
            assert(sm@.drop_last() =~= smseq0);
            assert(syntax_map(sm@) == sm0.insert(path@, nev));
        }
    }
    style_set(&mut base.style, &syntax_key, StyleEntry::Syntax(sm));
    Ok(())
}

/// Updating the last occurrence of a key updates the mapping.
proof fn lemma_syntax_map_set_last(s: Seq<(String, Syntax)>, i: int, p: (String, Syntax))
    requires
        0 <= i < s.len(),
        p.0@ == s[i].0@,
        forall|j: int| i < j < s.len() ==> s[j].0@ != s[i].0@,
    ensures
        syntax_map(s.update(i, p)) == syntax_map(s).insert(s[i].0@, p.1@),
    decreases s.len(),
{
    let s2 = s.update(i, p);
    if i == s.len() - 1 {
        assert(s2.drop_last() =~= s.drop_last());
        assert(s2.last() == p);
        assert(syntax_map(s2) =~= syntax_map(s).insert(s[i].0@, p.1@));
    } else {
        assert(s2.drop_last() =~= s.drop_last().update(i, p));
        assert(s2.last() == s.last());
        assert(forall|j: int|
            i < j < s.drop_last().len() ==> s.drop_last()[j].0@ != s.drop_last()[i].0@);
        lemma_syntax_map_set_last(s.drop_last(), i, p);
        assert(s.last().0@ != s[i].0@);
        assert(syntax_map(s2) =~= syntax_map(s).insert(s[i].0@, p.1@));
    }
}

/// Two scope lists equal pairwise denote the same mapping.
proof fn lemma_syntax_maps_equal(a: Seq<(String, Syntax)>, b: Seq<(String, Syntax)>)
    requires
        a.len() == b.len(),
        forall|i: int| 0 <= i < a.len() ==> #[trigger] a[i].0@ == b[i].0@,
        forall|i: int| 0 <= i < a.len() ==> #[trigger] a[i].1@ == b[i].1@,
    ensures
        syntax_map(a) == syntax_map(b),
    decreases a.len(),
{
    if a.len() > 0 {
        assert(forall|i: int|
            0 <= i < a.drop_last().len() ==> #[trigger] a.drop_last()[i].0@ == b.drop_last()[i].0@);
        assert(forall|i: int|
            0 <= i < a.drop_last().len() ==> #[trigger] a.drop_last()[i].1@ == b.drop_last()[i].1@);
        lemma_syntax_maps_equal(a.drop_last(), b.drop_last());
        assert(a.last().0@ == b.last().0@);
        assert(a.last().1@ == b.last().1@);
    }
}

fn syntax_clone_local(s: &Syntax) -> (r: Syntax)
    ensures
        r@ == s@,
{
    crate::flat::syntax_clone(s)
}

/// Applies an action to one style target: a flat key takes the color
/// field only and may not live in the player namespace; a syntax
/// scope takes every field the action carries.
pub fn apply_action(
    base: &mut JsonTheme,
    action: &Action,
    palette: &ResolvedPalette,
    to: &ModifierPath,
) -> (r: Result<(), ThemeError>)
    requires
        palette.wf(),
        distinct_style_keys(old(base).style@),
    ensures
        distinct_style_keys(final(base).style@),
        final(base).name@ == old(base).name@,
        final(base).appearance == old(base).appearance,
        match r {
            Ok(_) => sp_apply_action(style_map(old(base).style@), palette@, action@, to@) == Ok::<
                _,
                ErrorView,
            >(style_map(final(base).style@)),
            Err(e) => sp_apply_action(style_map(old(base).style@), palette@, action@, to@)
                == Err::<Map<Seq<char>, EntryView>, _>(e@) && final(base).style@ == old(
                base,
            ).style@,
        },
{
    match to {
        ModifierPath::Style(path) => {
            if starts_with_player_exec(path) {
                return Err(ThemeError::InvalidTarget { path: path.clone() });
            }
            match &action.color {
                Some(color) => match palette.lookup(color) {
                    Ok(resolved) => {
                        style_set(&mut base.style, path, StyleEntry::Normal(Some(resolved)));
                        Ok(())
                    },
                    Err(e) => {
                        proof {
                            assert(e@ == ErrorView::MissingReference(sp_ref_name(color@)));
                        }
                        Err(e)
                    },
                },
                None => Ok(()),
            }
        },
        ModifierPath::Syntax(tail) => process_syntax_path(action, palette, base, tail),
    }
}

/// A failed fold stays failed however the list grows.
proof fn lemma_players_err_extend(rm: Map<Seq<char>, HexColor>, ps: Seq<PlayerView>, i: int)
    requires
        0 <= i <= ps.len(),
        sp_players(rm, ps.take(i)) is Err,
    ensures
        sp_players(rm, ps) == sp_players(rm, ps.take(i)),
    decreases ps.len() - i,
{
    if i < ps.len() {
        assert(ps.take(i + 1).drop_last() =~= ps.take(i));
        lemma_players_err_extend(rm, ps, i + 1);
    } else {
        assert(ps.take(i) =~= ps);
    }
}

proof fn lemma_targets_err_extend(
    style: Map<Seq<char>, EntryView>,
    rm: Map<Seq<char>, HexColor>,
    a: ActionView,
    ts: Seq<PathView>,
    i: int,
)
    requires
        0 <= i <= ts.len(),
        sp_apply_targets(style, rm, a, ts.take(i)) is Err,
    ensures
        sp_apply_targets(style, rm, a, ts) == sp_apply_targets(style, rm, a, ts.take(i)),
    decreases ts.len() - i,
{
    if i < ts.len() {
        assert(ts.take(i + 1).drop_last() =~= ts.take(i));
        lemma_targets_err_extend(style, rm, a, ts, i + 1);
    } else {
        assert(ts.take(i) =~= ts);
    }
}

proof fn lemma_mods_err_extend(
    style: Map<Seq<char>, EntryView>,
    rm: Map<Seq<char>, HexColor>,
    ms: Seq<ModifierView>,
    i: int,
)
    requires
        0 <= i <= ms.len(),
        sp_apply_mods(style, rm, ms.take(i)) is Err,
    ensures
        sp_apply_mods(style, rm, ms) == sp_apply_mods(style, rm, ms.take(i)),
    decreases ms.len() - i,
{
    if i < ms.len() {
        assert(ms.take(i + 1).drop_last() =~= ms.take(i));
        lemma_mods_err_extend(style, rm, ms, i + 1);
    } else {
        assert(ms.take(i) =~= ms);
    }
}

proof fn lemma_compile_all_err_extend(
    rm: Map<Seq<char>, HexColor>,
    ts: Seq<ThemeView>,
    common: Option<ThemeView>,
    i: int,
)
    requires
        0 <= i <= ts.len(),
        sp_compile_all(rm, ts.take(i), common) is Err,
    ensures
        sp_compile_all(rm, ts, common) == sp_compile_all(rm, ts.take(i), common),
    decreases ts.len() - i,
{
    if i < ts.len() {
        assert(ts.take(i + 1).drop_last() =~= ts.take(i));
        lemma_compile_all_err_extend(rm, ts, common, i + 1);
    } else {
        assert(ts.take(i) =~= ts);
    }
}

/// Compiles one already-merged theme against a resolved palette.
pub fn compile_theme(palette: &ResolvedPalette, theme: &Theme) -> (r: Result<
    JsonTheme,
    ThemeError,
>)
    requires
        palette.wf(),
    ensures
        match r {
            Ok(jt) => sp_compile_theme(palette@, theme@) == Ok::<_, ErrorView>(jt@)
                && distinct_style_keys(jt.style@),
            Err(e) => sp_compile_theme(palette@, theme@) == Err::<JsonThemeView, _>(e@),
        },
{
    let ghost rm = palette@;
    let mut players: Vec<Player> = Vec::new();
    let np = theme.players.len();
    let mut i: usize = 0;
    let ghost pviews = players_view(theme.players@);
    proof {
        assert(pviews.take(0) =~= Seq::<PlayerView>::empty());
        assert(flat_players_view(players@) =~= Seq::<crate::flat::FlatPlayerView>::empty());
    }
    while i < np
        invariant
            np == theme.players@.len(),
            i <= np,
            rm == palette@,
            palette.wf(),
            pviews == players_view(theme.players@),
            sp_players(rm, pviews.take(i as int)) == Ok::<_, ErrorView>(
                flat_players_view(players@),
            ),
        decreases np - i,
    {
        let p = &theme.players[i];
        let ghost acc0 = flat_players_view(players@);
        let cursor = match opt_lookup(palette, &p.cursor, None) {
            Ok(v) => v,
            Err(e) => {
                proof {
                    assert(pviews.take(i + 1).drop_last() =~= pviews.take(i as int));
                    assert(pviews.take(i + 1).last() == p@);
                    assert(sp_players(rm, pviews.take(i + 1)) == Err::<
                        Seq<crate::flat::FlatPlayerView>,
                        _,
                    >(e@));
                    lemma_players_err_extend(rm, pviews, i + 1);
                }
                return Err(e);
            },
        };
        let selection = match opt_lookup(palette, &p.selection, None) {
            Ok(v) => v,
            Err(e) => {
                proof {
                    assert(pviews.take(i + 1).drop_last() =~= pviews.take(i as int));
                    assert(pviews.take(i + 1).last() == p@);
                    assert(sp_players(rm, pviews.take(i + 1)) == Err::<
                        Seq<crate::flat::FlatPlayerView>,
                        _,
                    >(e@));
                    lemma_players_err_extend(rm, pviews, i + 1);
                }
                return Err(e);
            },
        };
        let background = match opt_lookup(palette, &p.background, None) {
            Ok(v) => v,
            Err(e) => {
                proof {
                    assert(pviews.take(i + 1).drop_last() =~= pviews.take(i as int));
                    assert(pviews.take(i + 1).last() == p@);
                    assert(sp_players(rm, pviews.take(i + 1)) == Err::<
                        Seq<crate::flat::FlatPlayerView>,
                        _,
                    >(e@));
                    lemma_players_err_extend(rm, pviews, i + 1);
                }
                return Err(e);
            },
        };
        players.push(Player { cursor, selection, background });
        proof {
            assert(pviews.take(i + 1).drop_last() =~= pviews.take(i as int));
            assert(pviews.take(i + 1).last() == p@);
            assert(flat_players_view(players@) =~= acc0.push(
                crate::flat::FlatPlayerView { cursor, background, selection },
            ));
            assert(sp_player(rm, p@) == Ok::<_, ErrorView>(
                crate::flat::FlatPlayerView { cursor, background, selection },
            ));
        }
        i += 1;
    }
    proof {
        assert(pviews.take(np as int) =~= pviews);
    }
    let players_key = String::from_str("players");
    let syntax_key = String::from_str("syntax");
    proof {
        reveal_strlit("players");
        reveal_strlit("syntax");
        assert(!("players"@ =~= "syntax"@));
    }
    let ghost psv = flat_players_view(players@);
    let mut base = JsonTheme {
        name: theme.name.clone(),
        appearance: theme.appearance,
        style: Vec::new(),
    };
    base.style.push((players_key, StyleEntry::Players(players)));
    base.style.push((syntax_key, StyleEntry::Syntax(Vec::new())));
    proof {
        let s = base.style@;
        assert(s.len() == 2);
        assert(s.last() == s[1]);
        assert(s.drop_last().last() == s[0]);
        assert(s.drop_last().drop_last() =~= Seq::<(String, StyleEntry)>::empty());
        assert(distinct_style_keys(s));
        assert(s[0].1@ == EntryView::Players(psv));
        assert(syntax_map(Seq::<(String, Syntax)>::empty()) =~= Map::<
            Seq<char>,
            SyntaxView,
        >::empty());
        assert(s[1].1@ == EntryView::Syntax(Map::empty()));
        assert(style_map(s.drop_last().drop_last()) =~= Map::<Seq<char>, EntryView>::empty());
        assert(s[0].0@ == "players"@);
        assert(s[1].0@ == "syntax"@);
        assert(style_map(s.drop_last()) == Map::<Seq<char>, EntryView>::empty().insert(
            "players"@,
            EntryView::Players(psv),
        ));
        assert(style_map(s) == style_map(s.drop_last()).insert(
            "syntax"@,
            EntryView::Syntax(Map::empty()),
        ));
        assert(style_map(s) =~~= sp_init_style(psv));
        assert(sp_players(rm, pviews) == Ok::<_, ErrorView>(psv));
    }
    let nm = theme.modifiers.len();
    let mut mi: usize = 0;
    let ghost mviews = crate::schema::modifiers_view(theme.modifiers@);
    let ghost style0 = style_map(base.style@);
    proof {
        assert(mviews.take(0) =~= Seq::<ModifierView>::empty());
    }
    while mi < nm
        invariant
            nm == theme.modifiers@.len(),
            mi <= nm,
            rm == palette@,
            palette.wf(),
            mviews == crate::schema::modifiers_view(theme.modifiers@),
            pviews == players_view(theme.players@),
            sp_players(rm, pviews) == Ok::<_, ErrorView>(psv),
            style0 == sp_init_style(psv),
            distinct_style_keys(base.style@),
            base.name@ == theme.name@,
            base.appearance == theme.appearance,
            sp_apply_mods(style0, rm, mviews.take(mi as int)) == Ok::<_, ErrorView>(
                style_map(base.style@),
            ),
        decreases nm - mi,
    {
        let m = &theme.modifiers[mi];
        let ghost mstart = style_map(base.style@);
        let ghost tviews = crate::schema::paths_view(m.apply@);
        let nt = m.apply.len();
        let mut ti: usize = 0;
        proof {
            assert(tviews.take(0) =~= Seq::<PathView>::empty());
        }
        while ti < nt
            invariant
                nt == m.apply@.len(),
                ti <= nt,
                rm == palette@,
                palette.wf(),
                mi < nm,
                nm == theme.modifiers@.len(),
                m == &theme.modifiers[mi as int],
                mviews == crate::schema::modifiers_view(theme.modifiers@),
                pviews == players_view(theme.players@),
                sp_players(rm, pviews) == Ok::<_, ErrorView>(psv),
                style0 == sp_init_style(psv),
                tviews == crate::schema::paths_view(m.apply@),
                distinct_style_keys(base.style@),
                base.name@ == theme.name@,
                base.appearance == theme.appearance,
                sp_apply_mods(style0, rm, mviews.take(mi as int)) == Ok::<_, ErrorView>(mstart),
                sp_apply_targets(mstart, rm, m.action@, tviews.take(ti as int)) == Ok::<
                    _,
                    ErrorView,
                >(style_map(base.style@)),
            decreases nt - ti,
        {
            let target = &m.apply[ti];
            let ghost before = style_map(base.style@);
            match apply_action(&mut base, &m.action, palette, target) {
                Ok(_) => {
                    proof {
                        assert(tviews.take(ti + 1).drop_last() =~= tviews.take(ti as int));
                        assert(tviews.take(ti + 1).last() == target@);
                    }
                },
                Err(e) => {
                    proof {
                        assert(tviews.take(ti + 1).drop_last() =~= tviews.take(ti as int));
                        assert(tviews.take(ti + 1).last() == target@);
                        assert(sp_apply_targets(mstart, rm, m.action@, tviews.take(ti + 1))
                            == Err::<Map<Seq<char>, EntryView>, _>(e@));
                        lemma_targets_err_extend(mstart, rm, m.action@, tviews, ti + 1);
                        assert(mviews.take(mi + 1).drop_last() =~= mviews.take(mi as int));
                        assert(mviews.take(mi + 1).last() == mviews[mi as int]);
                        assert(mviews[mi as int].apply == tviews);
                        assert(mviews[mi as int].action == m.action@);
                        assert(sp_apply_mods(style0, rm, mviews.take(mi + 1)) == Err::<
                            Map<Seq<char>, EntryView>,
                            _,
                        >(e@));
                        lemma_mods_err_extend(style0, rm, mviews, mi + 1);
                    }
                    return Err(e);
                },
            }
            ti += 1;
        }
        proof {
            assert(tviews.take(nt as int) =~= tviews);
            assert(mviews.take(mi + 1).drop_last() =~= mviews.take(mi as int));
            assert(mviews.take(mi + 1).last() == mviews[mi as int]);
            assert(mviews[mi as int].apply == tviews);
            assert(mviews[mi as int].action == m.action@);
        }
        mi += 1;
    }
    proof {
        assert(mviews.take(nm as int) =~= mviews);
    }
    Ok(base)
}

/// Compiles a whole family: resolves the palette once, layers the
/// shared theme under every variant, and compiles each variant in
/// order. A resolver failure or a failing variant aborts the whole
/// run; no partial output is produced.
pub fn generate_json(family: ThemeFamily) -> (r: Result<crate::flat::ThemeFamily, ThemeError>)
    requires
        family.palette.wf(),
    ensures
        match r {
            Ok(jf) => {
                &&& resolvable(family.palette@)
                &&& jf.schema@ == "https://zed.dev/schema/themes/v0.1.0.json"@
                &&& jf.meta@ == family.meta@
                &&& forall|rm: Map<Seq<char>, HexColor>|
                    spec_resolves_to(family.palette@, rm) ==> #[trigger] sp_compile_all(
                        rm,
                        themes_view(family.themes@),
                        opt_theme_view(family.common),
                    ) == Ok::<_, ErrorView>(json_themes_view(jf.themes@))
            },
            Err(e) => {
                ||| (!resolvable(family.palette@) && error_describes(family.palette@, e))
                ||| (resolvable(family.palette@) && forall|rm: Map<Seq<char>, HexColor>|
                    spec_resolves_to(family.palette@, rm) ==> #[trigger] sp_compile_all(
                        rm,
                        themes_view(family.themes@),
                        opt_theme_view(family.common),
                    ) == Err::<Seq<JsonThemeView>, _>(e@))
            },
        },
{
    broadcast use vstd::seq::group_seq_axioms;

    let resolved = match family.palette.resolve() {
        Ok(rp) => rp,
        Err(e) => {
            return Err(e);
        },
    };
    let ghost rm0 = resolved@;
    let schema = String::from_str("https://zed.dev/schema/themes/v0.1.0.json");
    proof {
        reveal_strlit("https://zed.dev/schema/themes/v0.1.0.json");
    }
    let mut out_themes: Vec<JsonTheme> = Vec::new();
    let n = family.themes.len();
    let mut i: usize = 0;
    let ghost tviews = themes_view(family.themes@);
    let ghost cview = opt_theme_view(family.common);
    proof {
        assert(tviews.take(0) =~= Seq::<ThemeView>::empty());
        assert(json_themes_view(out_themes@) =~= Seq::<JsonThemeView>::empty());
    }
    while i < n
        invariant
            n == family.themes@.len(),
            i <= n,
            rm0 == resolved@,
            resolved.wf(),
            resolvable(family.palette@),
            spec_resolves_to(family.palette@, rm0),
            tviews == themes_view(family.themes@),
            cview == opt_theme_view(family.common),
            sp_compile_all(rm0, tviews.take(i as int), cview) == Ok::<_, ErrorView>(
                json_themes_view(out_themes@),
            ),
        decreases n - i,
    {
        let mut th = theme_clone(&family.themes[i]);
        match &family.common {
            Some(c) => {
                th.merge(c);
                proof {
                    assert(th@ =~= sp_merged(cview, tviews[i as int]));
                }
            },
            None => {
                proof {
                    assert(th@ =~= sp_merged(cview, tviews[i as int]));
                }
            },
        }
        let ghost acc0 = json_themes_view(out_themes@);
        match compile_theme(&resolved, &th) {
            Ok(jt) => {
                out_themes.push(jt);
                proof {
                    assert(tviews.take(i + 1).drop_last() =~= tviews.take(i as int));
                    assert(tviews.take(i + 1).last() == tviews[i as int]);
                    assert(json_themes_view(out_themes@) =~= acc0.push(
                        out_themes@.last()@,
                    ));
                }
            },
            Err(e) => {
                proof {
                    assert(tviews.take(i + 1).drop_last() =~= tviews.take(i as int));
                    assert(tviews.take(i + 1).last() == tviews[i as int]);
                    assert(sp_compile_all(rm0, tviews.take(i + 1), cview) == Err::<
                        Seq<JsonThemeView>,
                        _,
                    >(e@));
                    lemma_compile_all_err_extend(rm0, tviews, cview, i + 1);
                    assert forall|rm: Map<Seq<char>, HexColor>|
                        spec_resolves_to(family.palette@, rm) implies #[trigger] sp_compile_all(
                        rm,
                        tviews,
                        cview,
                    ) == Err::<Seq<JsonThemeView>, _>(e@) by {
                        lemma_resolution_confluent(family.palette@, rm, rm0);
                    }
                }
                return Err(e);
            },
        }
        i += 1;
    }
    proof {
        assert(tviews.take(n as int) =~= tviews);
    }
    let r = crate::flat::ThemeFamily { schema, meta: family.meta, themes: out_themes };
    proof {
        assert forall|rm: Map<Seq<char>, HexColor>|
            spec_resolves_to(family.palette@, rm) implies #[trigger] sp_compile_all(
            rm,
            tviews,
            cview,
        ) == Ok::<_, ErrorView>(json_themes_view(r.themes@)) by {
            lemma_resolution_confluent(family.palette@, rm, rm0);
        }
    }
    Ok(r)
}

/// A player record the decompiler emitted compiles back to exactly
/// the flat player it came from: every slot goes out through the
/// generator's lookup and comes back in through the palette lookup
/// unchanged, alpha included.
pub proof fn lemma_player_roundtrip(
    g: Map<Seq<u8>, Seq<char>>,
    rm: Map<Seq<char>, HexColor>,
    p: crate::flat::FlatPlayerView,
)
    requires
        crate::namer::gen_table_of(g, rm),
    ensures
        sp_player(rm, crate::decompile::sp_translate_player(g, p)) == Ok::<_, ErrorView>(p),
{
    match p.cursor {
        Some(h) => crate::namer::lemma_lookup_roundtrip(g, rm, h),
        None => {},
    }
    match p.background {
        Some(h) => crate::namer::lemma_lookup_roundtrip(g, rm, h),
        None => {},
    }
    match p.selection {
        Some(h) => crate::namer::lemma_lookup_roundtrip(g, rm, h),
        None => {},
    }
    match sp_player(rm, crate::decompile::sp_translate_player(g, p)) {
        Ok(q) => {
            assert(q =~= p);
        },
        Err(_) => {},
    }
}

/// A flat style color the decompiler turned into a modifier compiles
/// back to the same literal color at the same flat key.
pub proof fn lemma_style_color_roundtrip(
    g: Map<Seq<u8>, Seq<char>>,
    rm: Map<Seq<char>, HexColor>,
    style: Map<Seq<char>, EntryView>,
    path: Seq<char>,
    c: HexColor,
)
    requires
        crate::namer::gen_table_of(g, rm),
        !starts_with_player(path),
    ensures
        sp_apply_action(
            style,
            rm,
            ActionView {
                color: Some(crate::namer::spec_gen_lookup(g, c)),
                background: None,
                font_weight: None,
                font_style: None,
            },
            PathView::Style(path),
        ) == Ok::<_, ErrorView>(style.insert(path, EntryView::Normal(Some(c)))),
{
    crate::namer::lemma_lookup_roundtrip(g, rm, c);
}

/// Later modifiers override earlier ones: writing one color and then
/// another at the same flat style key leaves the later color in the
/// map.
pub proof fn lemma_override_order(
    style: Map<Seq<char>, EntryView>,
    rm: Map<Seq<char>, HexColor>,
    a1: ActionView,
    a2: ActionView,
    path: Seq<char>,
    m1: ModifierView,
    m2: ModifierView,
)
    requires
        !starts_with_player(path),
        a1.color is Some,
        a2.color is Some,
        spec_lookup(rm, a1.color.unwrap()) is Some,
        spec_lookup(rm, a2.color.unwrap()) is Some,
        m1 == (ModifierView { apply: seq![PathView::Style(path)], action: a1 }),
        m2 == (ModifierView { apply: seq![PathView::Style(path)], action: a2 }),
    ensures
        sp_apply_mods(style, rm, seq![m1, m2]) matches Ok(s2) && s2.dom().contains(path)
            && s2[path] == EntryView::Normal(Some(spec_lookup(rm, a2.color.unwrap()).unwrap())),
{
    let ms = seq![m1, m2];
    let h1 = spec_lookup(rm, a1.color.unwrap()).unwrap();
    let h2 = spec_lookup(rm, a2.color.unwrap()).unwrap();
    let s1 = style.insert(path, EntryView::Normal(Some(h1)));
    let s2 = s1.insert(path, EntryView::Normal(Some(h2)));
    assert(m1.apply.drop_last() =~= Seq::<PathView>::empty());
    assert(m2.apply.drop_last() =~= Seq::<PathView>::empty());
    assert(m1.apply.last() == PathView::Style(path));
    assert(m2.apply.last() == PathView::Style(path));
    assert(sp_apply_targets(style, rm, a1, Seq::<PathView>::empty()) == Ok::<_, ErrorView>(style));
    assert(sp_apply_targets(s1, rm, a2, Seq::<PathView>::empty()) == Ok::<_, ErrorView>(s1));
    assert(sp_apply_mods(style, rm, Seq::<ModifierView>::empty()) == Ok::<_, ErrorView>(style));
    assert(sp_apply_action(style, rm, a1, PathView::Style(path)) == Ok::<_, ErrorView>(s1));
    assert(sp_apply_targets(style, rm, a1, m1.apply) == Ok::<_, ErrorView>(s1));
    assert(sp_apply_action(s1, rm, a2, PathView::Style(path)) == Ok::<_, ErrorView>(s2));
    assert(sp_apply_targets(s1, rm, a2, m2.apply) == Ok::<_, ErrorView>(s2));
    assert(ms.drop_last() =~= seq![m1]);
    assert(seq![m1].drop_last() =~= Seq::<ModifierView>::empty());
    assert(sp_apply_mods(style, rm, seq![m1]) == Ok::<_, ErrorView>(s1));
    assert(sp_apply_mods(style, rm, ms) == Ok::<_, ErrorView>(s2));
}

} // verus!
