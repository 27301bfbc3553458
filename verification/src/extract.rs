//! Factoring shared structure out of two theme variants.
//!
//! Exactly two variants can share a synthesized base layer: the player
//! records present in both, and, for every action carried by both
//! variants, the targets their apply lists share. The shared part is
//! removed from both variants and returned as a new theme.
//!
//! When one theme carries an action more than once, the action's
//! effective target list is that of its last modifier, matching how
//! later modifiers override earlier ones in compilation.
use crate::schema::{
    action_clone, action_eq, modifiers_view, path_clone, path_eq, player_clone, player_eq,
    players_view, Action, ActionView, Appearance, Modifier, ModifierPath, ModifierView, PathView,
    Player, PlayerView, Theme,
};
use vstd::prelude::*;

verus! {

broadcast use vstd::seq::group_seq_axioms;

/// The elements of `s` that satisfy `pred`, in order.
pub open spec fn seq_keep<A>(s: Seq<A>, pred: spec_fn(A) -> bool) -> Seq<A>
    decreases s.len(),
{
    if s.len() == 0 {
        Seq::empty()
    } else if pred(s.last()) {
        seq_keep(s.drop_last(), pred).push(s.last())
    } else {
        seq_keep(s.drop_last(), pred)
    }
}

/// An element is kept exactly when it is present and satisfies `pred`.
pub proof fn lemma_seq_keep_membership<A>(s: Seq<A>, pred: spec_fn(A) -> bool, t: A)
    ensures
        seq_keep(s, pred).contains(t) <==> s.contains(t) && pred(t),
    decreases s.len(),
{
    broadcast use vstd::seq::group_seq_axioms;

    if s.len() > 0 {
        lemma_seq_keep_membership(s.drop_last(), pred, t);
        assert(s.contains(t) <==> s.drop_last().contains(t) || s.last() == t) by {
            if s.contains(t) {
                let i = choose|i: int| 0 <= i < s.len() && s[i] == t;
                if i < s.len() - 1 {
                    assert(s.drop_last()[i] == t);
                }
            }
            if s.drop_last().contains(t) {
                let i = choose|i: int| 0 <= i < s.drop_last().len() && s.drop_last()[i] == t;
                assert(s[i] == t);
            }
        }
        if pred(s.last()) {
            let k = seq_keep(s.drop_last(), pred);
            assert(seq_keep(s, pred) == k.push(s.last()));
            assert(k.push(s.last()).contains(t) <==> k.contains(t) || s.last() == t) by {
                if k.push(s.last()).contains(t) {
                    let i = choose|i: int|
                        0 <= i < k.push(s.last()).len() && k.push(s.last())[i] == t;
                    if i < k.len() {
                        assert(k[i] == t);
                    }
                }
                if k.contains(t) {
                    let i = choose|i: int| 0 <= i < k.len() && k[i] == t;
                    assert(k.push(s.last())[i] == t);
                }
                assert(k.push(s.last())[k.len() as int] == s.last());
            }
        }
    }
}

/// The apply list of the last modifier in the list that carries the
/// given action, if any carries it.
pub open spec fn last_apply(ms: Seq<ModifierView>, a: ActionView) -> Option<Seq<PathView>>
    decreases ms.len(),
{
    if ms.len() == 0 {
        None
    } else if ms.last().action == a {
        Some(ms.last().apply)
    } else {
        last_apply(ms.drop_last(), a)
    }
}

/// The target `t` is shared under action `a`: both lists carry the
/// action, and both effective apply lists hold the target.
pub open spec fn in_inter(
    m1: Seq<ModifierView>,
    m2: Seq<ModifierView>,
    a: ActionView,
    t: PathView,
) -> bool {
    match (last_apply(m1, a), last_apply(m2, a)) {
        (Some(x), Some(y)) => x.contains(t) && y.contains(t),
        _ => false,
    }
}

/// The shared target list of an action: the first list's effective
/// targets, kept when the second list's effective targets hold them.
pub open spec fn inter_apply(
    m1: Seq<ModifierView>,
    m2: Seq<ModifierView>,
    a: ActionView,
) -> Seq<PathView> {
    match (last_apply(m1, a), last_apply(m2, a)) {
        (Some(x), Some(y)) => seq_keep(x, |t: PathView| y.contains(t)),
        _ => Seq::empty(),
    }
}

/// One modifier with the shared targets of its action removed.
pub open spec fn discard_modifier(
    m: ModifierView,
    m1: Seq<ModifierView>,
    m2: Seq<ModifierView>,
) -> ModifierView {
    ModifierView {
        apply: seq_keep(m.apply, |t: PathView| !in_inter(m1, m2, m.action, t)),
        action: m.action,
    }
}

/// A modifier list after discarding shared targets; modifiers whose
/// apply list becomes empty are dropped whole.
pub open spec fn discard_list(
    ms: Seq<ModifierView>,
    m1: Seq<ModifierView>,
    m2: Seq<ModifierView>,
) -> Seq<ModifierView>
    decreases ms.len(),
{
    if ms.len() == 0 {
        Seq::empty()
    } else {
        let rest = discard_list(ms.drop_last(), m1, m2);
        let d = discard_modifier(ms.last(), m1, m2);
        if d.apply.len() == 0 {
            rest
        } else {
            rest.push(d)
        }
    }
}

/// Some modifier of the list carries action `a` and target `t`.
pub open spec fn common_has(ms: Seq<ModifierView>, a: ActionView, t: PathView) -> bool {
    exists|k: int|
        0 <= k < ms.len() && (#[trigger] ms[k]).action == a && ms[k].apply.contains(t)
}

/// Prepending one modifier changes `last_apply` only for actions the
/// rest of the list does not carry.
proof fn lemma_last_apply_cons(x: ModifierView, s: Seq<ModifierView>, a: ActionView)
    ensures
        last_apply(seq![x] + s, a) == (if last_apply(s, a) is Some {
            last_apply(s, a)
        } else if x.action == a {
            Some(x.apply)
        } else {
            None::<Seq<PathView>>
        }),
    decreases s.len(),
{
    broadcast use vstd::seq::group_seq_axioms;

    if s.len() == 0 {
        assert((seq![x] + s).drop_last() =~= Seq::<ModifierView>::empty());
        assert((seq![x] + s).last() == x);
    } else {
        assert((seq![x] + s).drop_last() =~= seq![x] + s.drop_last());
        assert((seq![x] + s).last() == s.last());
        lemma_last_apply_cons(x, s.drop_last(), a);
    }
}

/// `last_apply` over a suffix that carries the action agrees with
/// `last_apply` over the whole list.
proof fn lemma_last_apply_extend(s: Seq<ModifierView>, j: int, a: ActionView)
    requires
        0 <= j <= s.len(),
        last_apply(s.skip(j), a) is Some,
    ensures
        last_apply(s, a) == last_apply(s.skip(j), a),
    decreases j,
{
    broadcast use vstd::seq::group_seq_axioms;

    if j == 0 {
        assert(s.skip(0) =~= s);
    } else {
        assert(s.skip(j - 1) =~= seq![s[j - 1]] + s.skip(j));
        lemma_last_apply_cons(s[j - 1], s.skip(j), a);
        lemma_last_apply_extend(s, j - 1, a);
    }
}

fn path_in(v: &Vec<ModifierPath>, t: &ModifierPath) -> (r: bool)
    ensures
        r == crate::schema::paths_view(v@).contains(t@),
{
    let ghost pv = crate::schema::paths_view(v@);
    let n = v.len();
    let mut k: usize = 0;
    while k < n
        invariant
            n == v@.len(),
            k <= n,
            pv == crate::schema::paths_view(v@),
            forall|i: int| 0 <= i < k ==> pv[i] != t@,
        decreases n - k,
    {
        if path_eq(&v[k], t) {
            proof {
                assert(pv[k as int] == t@);
            }
            return true;
        }
        k += 1;
    }
    proof {
        if pv.contains(t@) {
            let i = choose|i: int| 0 <= i < pv.len() && pv[i] == t@;
        }
    }
    false
}

fn player_in(v: &Vec<Player>, p: &Player) -> (r: bool)
    ensures
        r == players_view(v@).contains(p@),
{
    let ghost pv = players_view(v@);
    let n = v.len();
    let mut k: usize = 0;
    while k < n
        invariant
            n == v@.len(),
            k <= n,
            pv == players_view(v@),
            forall|i: int| 0 <= i < k ==> pv[i] != p@,
        decreases n - k,
    {
        if player_eq(&v[k], p) {
            proof {
                assert(pv[k as int] == p@);
            }
            return true;
        }
        k += 1;
    }
    proof {
        if pv.contains(p@) {
            let i = choose|i: int| 0 <= i < pv.len() && pv[i] == p@;
        }
    }
    false
}

fn action_in(v: &Vec<Action>, a: &Action) -> (r: bool)
    ensures
        r == (exists|i: int| 0 <= i < v@.len() && (#[trigger] v@[i])@ == a@),
{
    let n = v.len();
    let mut k: usize = 0;
    while k < n
        invariant
            n == v@.len(),
            k <= n,
            forall|i: int| 0 <= i < k ==> (#[trigger] v@[i])@ != a@,
        decreases n - k,
    {
        if action_eq(&v[k], a) {
            return true;
        }
        k += 1;
    }
    false
}

/// Finds the apply list of the last modifier with the given action.
fn last_apply_exec<'a>(ms: &'a Vec<Modifier>, a: &Action) -> (r: Option<&'a Vec<ModifierPath>>)
    ensures
        match r {
            Some(v) => last_apply(modifiers_view(ms@), a@) == Some(
                crate::schema::paths_view(v@),
            ),
            None => last_apply(modifiers_view(ms@), a@) is None,
        },
{
    let ghost mv = modifiers_view(ms@);
    let mut k: usize = ms.len();
    proof {
        assert(mv.skip(mv.len() as int) =~= Seq::<ModifierView>::empty());
    }
    while k > 0
        invariant
            k <= ms@.len(),
            mv == modifiers_view(ms@),
            last_apply(mv.skip(k as int), a@) is None,
        decreases k,
    {
        k -= 1;
        if action_eq(&ms[k].action, a) {
            proof {
                assert(mv.skip(k as int) =~= seq![mv[k as int]] + mv.skip(k + 1));
                lemma_last_apply_cons(mv[k as int], mv.skip(k + 1), a@);
                assert(last_apply(mv.skip(k as int), a@) == Some(mv[k as int].apply));
                lemma_last_apply_extend(mv, k as int, a@);
            }
            return Some(&ms[k].apply);
        }
        proof {
            assert(mv.skip(k as int) =~= seq![mv[k as int]] + mv.skip(k + 1));
            lemma_last_apply_cons(mv[k as int], mv.skip(k + 1), a@);
        }
    }
    proof {
        assert(mv.skip(0) =~= mv);
    }
    None
}

/// Whether the target is shared under the action between both lists.
fn in_inter_exec(m1: &Vec<Modifier>, m2: &Vec<Modifier>, a: &Action, t: &ModifierPath) -> (r: bool)
    ensures
        r == in_inter(modifiers_view(m1@), modifiers_view(m2@), a@, t@),
{
    match (last_apply_exec(m1, a), last_apply_exec(m2, a)) {
        (Some(x), Some(y)) => path_in(x, t) && path_in(y, t),
        _ => false,
    }
}

/// A modifier list with the shared targets removed.
fn discard_exec(ms: &Vec<Modifier>, m1: &Vec<Modifier>, m2: &Vec<Modifier>) -> (r: Vec<Modifier>)
    ensures
        modifiers_view(r@) == discard_list(
            modifiers_view(ms@),
            modifiers_view(m1@),
            modifiers_view(m2@),
        ),
{
    let ghost mv = modifiers_view(ms@);
    let ghost mv1 = modifiers_view(m1@);
    let ghost mv2 = modifiers_view(m2@);
    let mut out: Vec<Modifier> = Vec::new();
    let n = ms.len();
    let mut i: usize = 0;
    proof {
        assert(mv.take(0) =~= Seq::<ModifierView>::empty());
    }
    while i < n
        invariant
            n == ms@.len(),
            i <= n,
            mv == modifiers_view(ms@),
            mv1 == modifiers_view(m1@),
            mv2 == modifiers_view(m2@),
            modifiers_view(out@) == discard_list(mv.take(i as int), mv1, mv2),
        decreases n - i,
    {
        let m = &ms[i];
        let ghost mvi = mv[i as int];
        let mut kept: Vec<ModifierPath> = Vec::new();
        let na = m.apply.len();
        let mut j: usize = 0;
        proof {
            assert(mvi.apply.take(0) =~= Seq::<PathView>::empty());
        }
        while j < na
            invariant
                na == m.apply@.len(),
                j <= na,
                mvi == mv[i as int],
                i < n,
                n == ms@.len(),
                mv == modifiers_view(ms@),
                mv1 == modifiers_view(m1@),
                mv2 == modifiers_view(m2@),
                m == &ms[i as int],
                mvi.apply == crate::schema::paths_view(m.apply@),
                crate::schema::paths_view(kept@) == seq_keep(
                    mvi.apply.take(j as int),
                    |t: PathView| !in_inter(mv1, mv2, mvi.action, t),
                ),
            decreases na - j,
        {
            let t = &m.apply[j];
            let ghost kv0 = crate::schema::paths_view(kept@);
            let shared = in_inter_exec(m1, m2, &m.action, t);
            if !shared {
                kept.push(path_clone(t));
            }
            proof {
                let pred = |t2: PathView| !in_inter(mv1, mv2, mvi.action, t2);
                assert(mvi.apply.take(j + 1).drop_last() =~= mvi.apply.take(j as int));
                assert(mvi.apply.take(j + 1).last() == mvi.apply[j as int]);
                assert(mvi.apply[j as int] == t@);
                if !shared {
                    assert(crate::schema::paths_view(kept@) =~= kv0.push(t@));
                    assert(seq_keep(mvi.apply.take(j + 1), pred) == kv0.push(t@));
                } else {
                    assert(seq_keep(mvi.apply.take(j + 1), pred) == kv0);
                }
            }
            j += 1;
        }
        proof {
            assert(mvi.apply.take(na as int) =~= mvi.apply);
        }
        let ghost out0 = modifiers_view(out@);
        if kept.len() > 0 {
            out.push(Modifier { apply: kept, action: action_clone(&m.action) });
            proof {
                assert(modifiers_view(out@) =~= out0.push(
                    discard_modifier(mvi, mv1, mv2),
                ));
            }
        }
        proof {
            assert(mv.take(i + 1).drop_last() =~= mv.take(i as int));
            assert(mv.take(i + 1).last() == mvi);
            assert(discard_modifier(mvi, mv1, mv2).apply.len() == 0 <==> kept@.len() == 0) by {
                assert(crate::schema::paths_view(kept@).len() == kept@.len());
            }
            assert(modifiers_view(out@) == discard_list(mv.take(i + 1), mv1, mv2));
        }
        i += 1;
    }
    proof {
        assert(mv.take(n as int) =~= mv);
    }
    out
}

impl Theme {
    /// Computes the structural intersection of this theme and `other`,
    /// removes it from both, and returns it as a synthesized shared
    /// theme named `common`. Its appearance is a placeholder and
    /// carries no meaning.
    pub fn extract_common(&mut self, other: &mut Theme) -> (c: Theme)
        ensures
            final(self)@.name == old(self)@.name,
            final(self)@.appearance == old(self)@.appearance,
            final(other)@.name == old(other)@.name,
            final(other)@.appearance == old(other)@.appearance,
            c@.name == "common"@,
            c@.appearance == Appearance::Dark,
            c@.players == seq_keep(
                old(self)@.players,
                |p: PlayerView| old(other)@.players.contains(p),
            ),
            final(self)@.players == seq_keep(
                old(self)@.players,
                |p: PlayerView| !c@.players.contains(p),
            ),
            final(other)@.players == seq_keep(
                old(other)@.players,
                |p: PlayerView| !c@.players.contains(p),
            ),
            final(self)@.modifiers == discard_list(
                old(self)@.modifiers,
                old(self)@.modifiers,
                old(other)@.modifiers,
            ),
            final(other)@.modifiers == discard_list(
                old(other)@.modifiers,
                old(self)@.modifiers,
                old(other)@.modifiers,
            ),
            forall|k: int|
                0 <= k < c@.modifiers.len() ==> (#[trigger] c@.modifiers[k]).apply == inter_apply(
                    old(self)@.modifiers,
                    old(other)@.modifiers,
                    c@.modifiers[k].action,
                ) && c@.modifiers[k].apply.len() > 0,
            forall|k1: int, k2: int|
                0 <= k1 < k2 < c@.modifiers.len() ==> (#[trigger] c@.modifiers[k1]).action != (
                #[trigger] c@.modifiers[k2]).action,
            forall|a: ActionView, t: PathView|
                common_has(c@.modifiers, a, t) <==> in_inter(
                    old(self)@.modifiers,
                    old(other)@.modifiers,
                    a,
                    t,
                ),
    {
        broadcast use vstd::seq::group_seq_axioms;

        let ghost mv1 = modifiers_view(self.modifiers@);
        let ghost mv2 = modifiers_view(other.modifiers@);
        let ghost pv1 = players_view(self.players@);
        let ghost pv2 = players_view(other.players@);

        // Shared player records, in this theme's order.
        let mut player_intersect: Vec<Player> = Vec::new();
        let np = self.players.len();
        let mut i: usize = 0;
        proof {
            assert(pv1.take(0) =~= Seq::<PlayerView>::empty());
        }
        while i < np
            invariant
                np == self.players@.len(),
                i <= np,
                pv1 == players_view(self.players@),
                pv2 == players_view(other.players@),
                players_view(player_intersect@) == seq_keep(
                    pv1.take(i as int),
                    |p: PlayerView| pv2.contains(p),
                ),
            decreases np - i,
        {
            let ghost acc0 = players_view(player_intersect@);
            let p = &self.players[i];
            if player_in(&other.players, p) {
                player_intersect.push(player_clone(p));
                proof {
                    assert(players_view(player_intersect@) =~= acc0.push(p@));
                }
            }
            proof {
                assert(pv1.take(i + 1).drop_last() =~= pv1.take(i as int));
                assert(pv1.take(i + 1).last() == pv1[i as int]);
                assert(pv1[i as int] == p@);
                assert(players_view(player_intersect@) == seq_keep(
                    pv1.take(i + 1),
                    |p2: PlayerView| pv2.contains(p2),
                ));
            }
            i += 1;
        }
        proof {
            assert(pv1.take(np as int) =~= pv1);
        }
        let ghost interp = players_view(player_intersect@);

        // Shared modifier targets, one synthesized modifier per action
        // carried by both themes, scanning this theme's actions from
        // the last occurrence backward.
        let mut commons: Vec<Modifier> = Vec::new();
        let mut processed: Vec<Action> = Vec::new();
        let nm = self.modifiers.len();
        let mut k: usize = nm;
        proof {
            assert(mv1.skip(nm as int) =~= Seq::<ModifierView>::empty());
        }
        while k > 0
            invariant
                k <= nm,
                nm == self.modifiers@.len(),
                mv1 == modifiers_view(self.modifiers@),
                mv2 == modifiers_view(other.modifiers@),
                forall|a: ActionView|
                    (#[trigger] last_apply(mv1.skip(k as int), a)) is Some <==> (exists|i2: int|
                        0 <= i2 < processed@.len() && (#[trigger] processed@[i2])@ == a),
                forall|i2: int, j2: int|
                    0 <= i2 < j2 < processed@.len() ==> (#[trigger] processed@[i2])@ != (
                    #[trigger] processed@[j2])@,
                forall|i2: int|
                    0 <= i2 < commons@.len() ==> {
                        let cm = (#[trigger] commons@[i2])@;
                        &&& cm.apply == inter_apply(mv1, mv2, cm.action)
                        &&& cm.apply.len() > 0
                        &&& last_apply(mv1.skip(k as int), cm.action) is Some
                    },
                forall|i2: int, j2: int|
                    0 <= i2 < j2 < commons@.len() ==> (#[trigger] commons@[i2])@.action != (
                    #[trigger] commons@[j2])@.action,
                forall|a: ActionView|
                    (last_apply(mv1.skip(k as int), a) is Some && inter_apply(mv1, mv2, a).len()
                        > 0) <==> (exists|i2: int|
                        0 <= i2 < commons@.len() && (#[trigger] commons@[i2])@.action == a),
            decreases k,
        {
            k -= 1;
            let ghost proc0 = processed@;
            let ghost com0 = commons@;
            let m = &self.modifiers[k];
            let ghost mvk = mv1[k as int];
            proof {
                assert(mv1.skip(k as int) =~= seq![mvk] + mv1.skip(k + 1));
                lemma_last_apply_cons(mvk, mv1.skip(k + 1), mvk.action);
            }
            if !action_in(&processed, &m.action) {
                proof {
                    assert(last_apply(mv1.skip(k + 1), mvk.action) is None);
                    assert(last_apply(mv1.skip(k as int), mvk.action) == Some(mvk.apply));
                    lemma_last_apply_extend(mv1, k as int, mvk.action);
                    assert(last_apply(mv1, mvk.action) == Some(mvk.apply));
                }
                processed.push(action_clone(&m.action));
                match last_apply_exec(&other.modifiers, &m.action) {
                    Some(oapply) => {
                        // Keep the targets the other theme shares.
                        let mut inter: Vec<ModifierPath> = Vec::new();
                        let na = m.apply.len();
                        let mut j: usize = 0;
                        proof {
                            assert(mvk.apply.take(0) =~= Seq::<PathView>::empty());
                        }
                        while j < na
                            invariant
                                na == m.apply@.len(),
                                j <= na,
                                k < nm,
                                nm == self.modifiers@.len(),
                                m == &self.modifiers[k as int],
                                mvk == mv1[k as int],
                                mv1 == modifiers_view(self.modifiers@),
                                mvk.apply == crate::schema::paths_view(m.apply@),
                                last_apply(mv1, mvk.action) == Some(mvk.apply),
                                last_apply(mv2, mvk.action) == Some(
                                    crate::schema::paths_view(oapply@),
                                ),
                                crate::schema::paths_view(inter@) == seq_keep(
                                    mvk.apply.take(j as int),
                                    |t: PathView| crate::schema::paths_view(oapply@).contains(t),
                                ),
                            decreases na - j,
                        {
                            let ghost acc0 = crate::schema::paths_view(inter@);
                            let t = &m.apply[j];
                            if path_in(oapply, t) {
                                inter.push(path_clone(t));
                                proof {
                                    assert(crate::schema::paths_view(inter@) =~= acc0.push(t@));
                                }
                            }
                            proof {
                                assert(mvk.apply.take(j + 1).drop_last() =~= mvk.apply.take(
                                    j as int,
                                ));
                                assert(mvk.apply.take(j + 1).last() == mvk.apply[j as int]);
                                assert(mvk.apply[j as int] == t@);
                                assert(crate::schema::paths_view(inter@) == seq_keep(
                                    mvk.apply.take(j + 1),
                                    |t2: PathView| crate::schema::paths_view(oapply@).contains(t2),
                                ));
                            }
                            j += 1;
                        }
                        proof {
                            assert(mvk.apply.take(na as int) =~= mvk.apply);
                            assert(crate::schema::paths_view(inter@) == inter_apply(
                                mv1,
                                mv2,
                                mvk.action,
                            ));
                        }
                        if inter.len() > 0 {
                            let ghost c0 = commons@;
                            commons.push(
                                Modifier { apply: inter, action: action_clone(&m.action) },
                            );
                            proof {
                                assert(crate::schema::paths_view(commons@[c0.len() as int].apply@)
                                    == inter_apply(mv1, mv2, mvk.action));
                                assert forall|i2: int| 0 <= i2 < commons@.len() implies {
                                    let cm = (#[trigger] commons@[i2])@;
                                    &&& cm.apply == inter_apply(mv1, mv2, cm.action)
                                    &&& cm.apply.len() > 0
                                    &&& last_apply(mv1.skip(k as int), cm.action) is Some
                                } by {
                                    if i2 < c0.len() {
                                        assert(commons@[i2] == c0[i2]);
                                        lemma_last_apply_cons(
                                            mvk,
                                            mv1.skip(k + 1),
                                            (commons@[i2])@.action,
                                        );
                                    }
                                }
                            }
                        }
                    },
                    None => {},
                }
            } else {
                proof {
                    let ia = choose|i2: int|
                        0 <= i2 < processed@.len() && (#[trigger] processed@[i2])@ == mvk.action;
                    assert(last_apply(mv1.skip(k + 1), mvk.action) is Some);
                }
            }
            proof {
                let sk = mv1.skip(k as int);
                let sk1 = mv1.skip(k + 1);
                assert forall|a: ActionView| #[trigger] last_apply(sk, a) is Some implies (
                last_apply(sk1, a) is Some || mvk.action == a) by {
                    lemma_last_apply_cons(mvk, sk1, a);
                }
                assert forall|a: ActionView|
                    (last_apply(sk1, a) is Some || mvk.action == a) implies #[trigger] last_apply(
                    sk,
                    a,
                ) is Some by {
                    lemma_last_apply_cons(mvk, sk1, a);
                }
                assert forall|i2: int| 0 <= i2 < commons@.len() implies last_apply(
                    sk,
                    (#[trigger] commons@[i2])@.action,
                ) is Some by {
                    lemma_last_apply_cons(mvk, sk1, (commons@[i2])@.action);
                }
                assert forall|a: ActionView| #[trigger] last_apply(sk, a) is Some implies (exists|
                    i2: int,
                |
                    0 <= i2 < processed@.len() && (#[trigger] processed@[i2])@ == a) by {
                    if last_apply(sk1, a) is Some {
                        let i3 = choose|i3: int|
                            0 <= i3 < proc0.len() && (#[trigger] proc0[i3])@ == a;
                        assert(processed@[i3]@ == a);
                    } else {
                        assert(a == mvk.action);
                        if exists|i3: int|
                            0 <= i3 < proc0.len() && (#[trigger] proc0[i3])@ == mvk.action {
                            let i3 = choose|i3: int|
                                0 <= i3 < proc0.len() && (#[trigger] proc0[i3])@ == mvk.action;
                            assert(processed@[i3]@ == a);
                        } else {
                            assert(processed@[proc0.len() as int]@ == a);
                        }
                    }
                }
                assert forall|i2: int| 0 <= i2 < processed@.len() implies #[trigger] last_apply(
                    sk,
                    (processed@[i2])@,
                ) is Some by {
                    lemma_last_apply_cons(mvk, sk1, processed@[i2]@);
                    if i2 < proc0.len() {
                        assert(proc0[i2]@ == processed@[i2]@);
                        assert(last_apply(sk1, proc0[i2]@) is Some);
                    } else {
                        assert(processed@[i2]@ == mvk.action);
                    }
                }
                assert forall|a: ActionView|
                    (#[trigger] last_apply(sk, a) is Some && inter_apply(mv1, mv2, a).len()
                        > 0) implies (exists|i2: int|
                    0 <= i2 < commons@.len() && (#[trigger] commons@[i2])@.action == a) by {
                    if last_apply(sk1, a) is Some {
                        let i3 = choose|i3: int|
                            0 <= i3 < com0.len() && (#[trigger] com0[i3])@.action == a;
                        assert(commons@[i3]@.action == a);
                    } else {
                        assert(a == mvk.action);
                        assert(commons@[com0.len() as int]@.action == a);
                    }
                }
            }
        }
        proof {
            assert(mv1.skip(0) =~= mv1);
        }

        // Remove the shared structure from both themes.
        let new_self_mods = discard_exec(&self.modifiers, &self.modifiers, &other.modifiers);
        let new_other_mods = discard_exec(&other.modifiers, &self.modifiers, &other.modifiers);
        let new_self_players = keep_players_not_in(&self.players, &player_intersect);
        let new_other_players = keep_players_not_in(&other.players, &player_intersect);
        self.modifiers = new_self_mods;
        other.modifiers = new_other_mods;
        self.players = new_self_players;
        other.players = new_other_players;

        let c = Theme {
            name: String::from_str("common"),
            appearance: Appearance::Dark,
            players: player_intersect,
            modifiers: commons,
        };
        proof {
            reveal_strlit("common");
            assert(c@.players == interp);
            assert forall|a: ActionView, t: PathView|
                common_has(c@.modifiers, a, t) implies in_inter(mv1, mv2, a, t) by {
                let k2 = choose|k2: int|
                    0 <= k2 < c@.modifiers.len() && (#[trigger] c@.modifiers[k2]).action == a
                        && c@.modifiers[k2].apply.contains(t);
                match (last_apply(mv1, a), last_apply(mv2, a)) {
                    (Some(x), Some(y)) => {
                        lemma_seq_keep_membership(x, |t2: PathView| y.contains(t2), t);
                    },
                    _ => {},
                }
            }
            assert forall|a: ActionView, t: PathView|
                in_inter(mv1, mv2, a, t) implies common_has(c@.modifiers, a, t) by {
                match (last_apply(mv1, a), last_apply(mv2, a)) {
                    (Some(x), Some(y)) => {
                        lemma_seq_keep_membership(x, |t2: PathView| y.contains(t2), t);
                        assert(inter_apply(mv1, mv2, a).contains(t));
                        assert(inter_apply(mv1, mv2, a).len() > 0);
                        let i2 = choose|i2: int|
                            0 <= i2 < commons@.len() && (#[trigger] commons@[i2])@.action == a;
                        assert(c@.modifiers[i2].action == a);
                        assert(c@.modifiers[i2].apply.contains(t));
                    },
                    _ => {},
                }
            }
        }
        c
    }
}

proof fn lemma_discard_no_shared(
    ms: Seq<ModifierView>,
    m1: Seq<ModifierView>,
    m2: Seq<ModifierView>,
    a: ActionView,
    t: PathView,
)
    requires
        in_inter(m1, m2, a, t),
    ensures
        !common_has(discard_list(ms, m1, m2), a, t),
    decreases ms.len(),
{
    broadcast use vstd::seq::group_seq_axioms;

    if ms.len() > 0 {
        lemma_discard_no_shared(ms.drop_last(), m1, m2, a, t);
        let rest = discard_list(ms.drop_last(), m1, m2);
        let d = discard_modifier(ms.last(), m1, m2);
        if d.apply.len() > 0 {
            if common_has(rest.push(d), a, t) {
                let k = choose|k: int|
                    0 <= k < rest.push(d).len() && (#[trigger] rest.push(d)[k]).action == a
                        && rest.push(d)[k].apply.contains(t);
                if k < rest.len() {
                    assert(rest[k].action == a && rest[k].apply.contains(t));
                } else {
                    assert(d.action == a);
                    lemma_seq_keep_membership(
                        ms.last().apply,
                        |t2: PathView| !in_inter(m1, m2, ms.last().action, t2),
                        t,
                    );
                }
            }
        }
    }
}

/// Common extraction moves shared structure out: a target that both
/// themes' effective apply lists give the same action lands in the
/// synthesized common theme (by `extract_common`'s contract), and
/// neither theme's remaining modifier list retains that target under
/// that action.
pub proof fn lemma_common_extraction(
    m1: Seq<ModifierView>,
    m2: Seq<ModifierView>,
    a: ActionView,
    t: PathView,
)
    requires
        in_inter(m1, m2, a, t),
    ensures
        !common_has(discard_list(m1, m1, m2), a, t),
        !common_has(discard_list(m2, m1, m2), a, t),
{
    lemma_discard_no_shared(m1, m1, m2, a, t);
    lemma_discard_no_shared(m2, m1, m2, a, t);
}

/// The players of `ps` that are not in `inter`.
fn keep_players_not_in(ps: &Vec<Player>, inter: &Vec<Player>) -> (r: Vec<Player>)
    ensures
        players_view(r@) == seq_keep(
            players_view(ps@),
            |p: PlayerView| !players_view(inter@).contains(p),
        ),
{
    let ghost pv = players_view(ps@);
    let ghost iv = players_view(inter@);
    let mut out: Vec<Player> = Vec::new();
    let n = ps.len();
    let mut i: usize = 0;
    proof {
        assert(pv.take(0) =~= Seq::<PlayerView>::empty());
    }
    while i < n
        invariant
            n == ps@.len(),
            i <= n,
            pv == players_view(ps@),
            iv == players_view(inter@),
            players_view(out@) == seq_keep(pv.take(i as int), |p: PlayerView| !iv.contains(p)),
        decreases n - i,
    {
        let ghost acc0 = players_view(out@);
        let p = &ps[i];
        if !player_in(inter, p) {
            out.push(player_clone(p));
            proof {
                assert(players_view(out@) =~= acc0.push(p@));
            }
        }
        proof {
            assert(pv.take(i + 1).drop_last() =~= pv.take(i as int));
            assert(pv.take(i + 1).last() == pv[i as int]);
            assert(pv[i as int] == p@);
            assert(players_view(out@) == seq_keep(pv.take(i + 1), |p2: PlayerView| !iv.contains(p2)));
        }
        i += 1;
    }
    proof {
        assert(pv.take(n as int) =~= pv);
    }
    out
}

} // verus!
