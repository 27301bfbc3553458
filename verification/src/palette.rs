//! Named color graphs and their resolution into literal colors.
//!
//! A [`Palette`] maps names to colors whose base may reference another
//! entry; [`Palette::resolve`] turns it into a [`ResolvedPalette`] of
//! literal colors, detecting cycles and dangling references. Resolution
//! is specified by the recursive function [`rr`], which walks references
//! while carrying the set of names already on the current chain; the
//! result of resolving an entry depends only on the palette's mapping,
//! never on entry order.
use crate::color::{spec_apply_modifiers, BaseColorKind, BaseKind, Color, ColorView, HexColor};
use crate::error::ThemeError;
use vstd::prelude::*;
use vstd::set_lib::lemma_len_subset;

verus! {

/// The mapping denoted by a name/color entry list: later entries win.
pub open spec fn entries_map(s: Seq<(String, Color)>) -> Map<Seq<char>, ColorView>
    decreases s.len(),
{
    if s.len() == 0 {
        Map::empty()
    } else {
        entries_map(s.drop_last()).insert(s.last().0@, s.last().1@)
    }
}

/// The mapping denoted by a name/literal-color entry list.
pub open spec fn hex_entries_map(s: Seq<(String, HexColor)>) -> Map<Seq<char>, HexColor>
    decreases s.len(),
{
    if s.len() == 0 {
        Map::empty()
    } else {
        hex_entries_map(s.drop_last()).insert(s.last().0@, s.last().1)
    }
}

/// No two entries share a name.
pub open spec fn distinct_names<T>(s: Seq<(String, T)>) -> bool {
    forall|i: int, j: int| 0 <= i < j < s.len() ==> s[i].0@ != s[j].0@
}

pub proof fn lemma_entries_map_dom(s: Seq<(String, Color)>)
    ensures
        entries_map(s).dom().finite(),
        entries_map(s).dom().len() <= s.len(),
        forall|n: Seq<char>| #[trigger]
            entries_map(s).dom().contains(n) <==> (exists|i: int|
                0 <= i < s.len() && s[i].0@ == n),
    decreases s.len(),
{
    if s.len() > 0 {
        lemma_entries_map_dom(s.drop_last());
        assert forall|n: Seq<char>| #[trigger] entries_map(s).dom().contains(n) implies (exists|
            i: int,
        |
            0 <= i < s.len() && s[i].0@ == n) by {
            if n == s.last().0@ {
                assert(s[s.len() - 1].0@ == n);
            } else {
                let i = choose|i: int| 0 <= i < s.len() - 1 && s.drop_last()[i].0@ == n;
                assert(s[i].0@ == n);
            }
        }
        assert forall|n: Seq<char>|
            (exists|i: int| 0 <= i < s.len() && s[i].0@ == n) implies #[trigger] entries_map(
            s,
        ).dom().contains(n) by {
            let i = choose|i: int| 0 <= i < s.len() && s[i].0@ == n;
            if i < s.len() - 1 {
                assert(s.drop_last()[i].0@ == n);
            }
        }
    }
}

pub proof fn lemma_entries_map_value(s: Seq<(String, Color)>, i: int)
    requires
        0 <= i < s.len(),
        forall|j: int| i < j < s.len() ==> s[j].0@ != s[i].0@,
    ensures
        entries_map(s).dom().contains(s[i].0@),
        entries_map(s)[s[i].0@] == s[i].1@,
    decreases s.len(),
{
    if i == s.len() - 1 {
    } else {
        assert(forall|j: int| i < j < s.drop_last().len() ==> s.drop_last()[j].0@ != s.drop_last()[i].0@);
        lemma_entries_map_value(s.drop_last(), i);
    }
}

pub proof fn lemma_hex_entries_map_dom(s: Seq<(String, HexColor)>)
    ensures
        hex_entries_map(s).dom().finite(),
        hex_entries_map(s).dom().len() <= s.len(),
        forall|n: Seq<char>| #[trigger]
            hex_entries_map(s).dom().contains(n) <==> (exists|i: int|
                0 <= i < s.len() && s[i].0@ == n),
    decreases s.len(),
{
    if s.len() > 0 {
        lemma_hex_entries_map_dom(s.drop_last());
        assert forall|n: Seq<char>| #[trigger] hex_entries_map(s).dom().contains(n) implies (exists|
            i: int,
        |
            0 <= i < s.len() && s[i].0@ == n) by {
            if n == s.last().0@ {
                assert(s[s.len() - 1].0@ == n);
            } else {
                let i = choose|i: int| 0 <= i < s.len() - 1 && s.drop_last()[i].0@ == n;
                assert(s[i].0@ == n);
            }
        }
        assert forall|n: Seq<char>|
            (exists|i: int| 0 <= i < s.len() && s[i].0@ == n) implies #[trigger] hex_entries_map(
            s,
        ).dom().contains(n) by {
            let i = choose|i: int| 0 <= i < s.len() && s[i].0@ == n;
            if i < s.len() - 1 {
                assert(s.drop_last()[i].0@ == n);
            }
        }
    }
}

pub proof fn lemma_hex_entries_map_value(s: Seq<(String, HexColor)>, i: int)
    requires
        0 <= i < s.len(),
        forall|j: int| i < j < s.len() ==> s[j].0@ != s[i].0@,
    ensures
        hex_entries_map(s).dom().contains(s[i].0@),
        hex_entries_map(s)[s[i].0@] == s[i].1,
    decreases s.len(),
{
    if i == s.len() - 1 {
    } else {
        assert(forall|j: int|
            i < j < s.drop_last().len() ==> s.drop_last()[j].0@ != s.drop_last()[i].0@);
        lemma_hex_entries_map_value(s.drop_last(), i);
    }
}

// ---------------------------------------------------------------------------
// The resolution relation.
// ---------------------------------------------------------------------------

/// Resolves the entry `n` of the mapping `m`, where `seen` holds the
/// names already on the current reference chain. A name outside the
/// mapping, or one that the chain already passed, resolves to `None`;
/// otherwise the entry's base is either a literal or is resolved
/// recursively, and the entry's own modifiers are applied on top.
pub open spec fn rr(
    m: Map<Seq<char>, ColorView>,
    n: Seq<char>,
    seen: Set<Seq<char>>,
) -> Option<HexColor>
    decreases m.dom().difference(seen).len()
        when m.dom().finite()
        via rr_decreases
{
    if !m.dom().contains(n) || seen.contains(n) {
        None
    } else {
        match m[n].base {
            BaseKind::Literal(h) => Some(spec_apply_modifiers(h, m[n].modifiers)),
            BaseKind::Reference(r) => match rr(m, r, seen.insert(n)) {
                Some(h) => Some(spec_apply_modifiers(h, m[n].modifiers)),
                None => None,
            },
        }
    }
}

#[via_fn]
proof fn rr_decreases(m: Map<Seq<char>, ColorView>, n: Seq<char>, seen: Set<Seq<char>>) {
    broadcast use vstd::set::group_set_axioms;

    if m.dom().contains(n) && !seen.contains(n) {
        assert(m.dom().difference(seen.insert(n)) =~= m.dom().difference(seen).remove(n));
    }
}

/// The names a successful resolution run walks through.
pub open spec fn visited(
    m: Map<Seq<char>, ColorView>,
    n: Seq<char>,
    seen: Set<Seq<char>>,
) -> Set<Seq<char>>
    decreases m.dom().difference(seen).len()
        when m.dom().finite()
        via visited_decreases
{
    if !m.dom().contains(n) || seen.contains(n) {
        Set::empty()
    } else {
        match m[n].base {
            BaseKind::Literal(_) => Set::empty().insert(n),
            BaseKind::Reference(r) => visited(m, r, seen.insert(n)).insert(n),
        }
    }
}

#[via_fn]
proof fn visited_decreases(m: Map<Seq<char>, ColorView>, n: Seq<char>, seen: Set<Seq<char>>) {
    broadcast use vstd::set::group_set_axioms;

    if m.dom().contains(n) && !seen.contains(n) {
        assert(m.dom().difference(seen.insert(n)) =~= m.dom().difference(seen).remove(n));
    }
}

/// On a successful run, every name walked is a live entry off the chain,
/// and every reference step stays inside the walked set and never points
/// back at the chain or at the starting name.
pub proof fn lemma_run_props(m: Map<Seq<char>, ColorView>, n: Seq<char>, seen: Set<Seq<char>>)
    requires
        m.dom().finite(),
        rr(m, n, seen) is Some,
    ensures
        visited(m, n, seen).contains(n),
        forall|q: Seq<char>| #[trigger]
            visited(m, n, seen).contains(q) ==> m.dom().contains(q) && !seen.contains(q),
        forall|q: Seq<char>| #[trigger]
            visited(m, n, seen).contains(q) ==> match m[q].base {
                BaseKind::Reference(r) => {
                    &&& !seen.contains(r)
                    &&& r != n
                    &&& visited(m, n, seen).contains(r)
                },
                BaseKind::Literal(_) => true,
            },
    decreases m.dom().difference(seen).len(),
{
    broadcast use vstd::set::group_set_axioms;

    assert(m.dom().difference(seen.insert(n)) =~= m.dom().difference(seen).remove(n));
    match m[n].base {
        BaseKind::Literal(_) => {},
        BaseKind::Reference(r) => {
            lemma_run_props(m, r, seen.insert(n));
        },
    }
}

/// Enlarging the chain set by names a run never walks does not change
/// the run.
pub proof fn lemma_extend_seen(
    m: Map<Seq<char>, ColorView>,
    n: Seq<char>,
    seen: Set<Seq<char>>,
    t: Set<Seq<char>>,
)
    requires
        m.dom().finite(),
        rr(m, n, seen) is Some,
        t.disjoint(visited(m, n, seen)),
    ensures
        rr(m, n, seen.union(t)) == rr(m, n, seen),
        visited(m, n, seen.union(t)) == visited(m, n, seen),
    decreases m.dom().difference(seen).len(),
{
    broadcast use vstd::set::group_set_axioms;

    assert(m.dom().difference(seen.insert(n)) =~= m.dom().difference(seen).remove(n));
    assert(visited(m, n, seen).contains(n));
    match m[n].base {
        BaseKind::Literal(_) => {
            assert(visited(m, n, seen.union(t)) =~= visited(m, n, seen));
        },
        BaseKind::Reference(r) => {
            assert(t.disjoint(visited(m, r, seen.insert(n))));
            lemma_extend_seen(m, r, seen.insert(n), t);
            assert(seen.union(t).insert(n) =~= seen.insert(n).union(t));
            assert(visited(m, n, seen.union(t)) =~= visited(m, n, seen));
        },
    }
}

/// Shrinking the chain set preserves a successful run.
pub proof fn lemma_shrink_seen(
    m: Map<Seq<char>, ColorView>,
    n: Seq<char>,
    seen: Set<Seq<char>>,
    sub: Set<Seq<char>>,
)
    requires
        m.dom().finite(),
        rr(m, n, seen) is Some,
        sub.subset_of(seen),
    ensures
        rr(m, n, sub) == rr(m, n, seen),
        visited(m, n, sub) == visited(m, n, seen),
    decreases m.dom().difference(seen).len(),
{
    broadcast use vstd::set::group_set_axioms;

    assert(m.dom().difference(seen.insert(n)) =~= m.dom().difference(seen).remove(n));
    match m[n].base {
        BaseKind::Literal(_) => {
            assert(visited(m, n, sub) =~= visited(m, n, seen));
        },
        BaseKind::Reference(r) => {
            assert(sub.insert(n).subset_of(seen.insert(n)));
            lemma_shrink_seen(m, r, seen.insert(n), sub.insert(n));
            assert(visited(m, n, sub) =~= visited(m, n, seen));
        },
    }
}

/// A reference chain `path` whose links `path[0] -> path[1] -> ...`
/// end in a reference to `n` cannot meet the walk of a successful
/// run that starts at `n` with an empty chain: a walked chain entry
/// would force the walk back around to `n` itself, which the walk's
/// own chain set forbids.
proof fn lemma_no_path_into_run(
    m: Map<Seq<char>, ColorView>,
    path: Seq<Seq<char>>,
    n: Seq<char>,
    i: int,
)
    requires
        m.dom().finite(),
        rr(m, n, Set::empty()) is Some,
        forall|k: int| 0 <= k < path.len() ==> m.dom().contains(#[trigger] path[k]),
        forall|k: int|
            0 <= k < path.len() - 1 ==> m[#[trigger] path[k]].base == BaseKind::Reference(
                path[k + 1],
            ),
        path.len() > 0 ==> m[path.last()].base == BaseKind::Reference(n),
        0 <= i < path.len(),
    ensures
        !visited(m, n, Set::empty()).contains(path[i]),
    decreases path.len() - i,
{
    lemma_run_props(m, n, Set::empty());
    if visited(m, n, Set::empty()).contains(path[i]) {
        if i == path.len() - 1 {
            assert(m[path[i]].base == BaseKind::Reference(n));
        } else {
            assert(m[path[i]].base == BaseKind::Reference(path[i + 1]));
            lemma_no_path_into_run(m, path, n, i + 1);
        }
    }
}

/// A run that succeeded with an empty chain also succeeds under any
/// reference chain that leads into its starting name.
pub proof fn lemma_memo_lift(
    m: Map<Seq<char>, ColorView>,
    path: Seq<Seq<char>>,
    n: Seq<char>,
)
    requires
        m.dom().finite(),
        rr(m, n, Set::empty()) is Some,
        forall|k: int| 0 <= k < path.len() ==> m.dom().contains(#[trigger] path[k]),
        forall|k: int|
            0 <= k < path.len() - 1 ==> m[#[trigger] path[k]].base == BaseKind::Reference(
                path[k + 1],
            ),
        path.len() > 0 ==> m[path.last()].base == BaseKind::Reference(n),
    ensures
        rr(m, n, path.to_set()) == rr(m, n, Set::empty()),
{
    broadcast use vstd::set::group_set_axioms;
    broadcast use vstd::seq_lib::group_seq_lib_default;

    assert forall|q: Seq<char>| path.to_set().contains(q) implies !visited(
        m,
        n,
        Set::empty(),
    ).contains(q) by {
        let i = choose|i: int| 0 <= i < path.len() && path[i] == q;
        lemma_no_path_into_run(m, path, n, i);
    }
    assert(path.to_set().disjoint(visited(m, n, Set::empty())));
    lemma_extend_seen(m, n, Set::empty(), path.to_set());
    assert(Set::empty().union(path.to_set()) =~= path.to_set());
}

/// If the run fails at position `j` of a distinct linked chain, it
/// already fails from the chain's head with an empty chain set.
pub proof fn lemma_path_none(m: Map<Seq<char>, ColorView>, path: Seq<Seq<char>>, j: int)
    requires
        m.dom().finite(),
        0 <= j < path.len(),
        forall|k: int| 0 <= k < path.len() ==> m.dom().contains(#[trigger] path[k]),
        forall|k: int|
            0 <= k < path.len() - 1 ==> m[#[trigger] path[k]].base == BaseKind::Reference(
                path[k + 1],
            ),
        forall|k1: int, k2: int| 0 <= k1 < k2 < path.len() ==> path[k1] != path[k2],
        rr(m, path[j], path.take(j).to_set()) is None,
    ensures
        rr(m, path[0], Set::empty()) is None,
    decreases j,
{
    broadcast use vstd::set::group_set_axioms;
    broadcast use vstd::seq_lib::group_seq_lib_default;

    if j == 0 {
        assert(path.take(0).to_set() =~= Set::<Seq<char>>::empty());
    } else {
        let prev = path[j - 1];
        let sp = path.take(j - 1).to_set();
        assert(!sp.contains(prev)) by {
            if sp.contains(prev) {
                let k = choose|k: int|
                    0 <= k < path.take(j - 1).len() && #[trigger] path.take(j - 1)[k] == prev;
                assert(path[k] == path[j - 1]);
            }
        }
        assert(m[prev].base == BaseKind::Reference(path[j]));
        assert(path.take(j - 1).push(prev) =~= path.take(j));
        path.take(j - 1).lemma_push_to_set_commute(prev);
        assert(sp.insert(prev) =~= path.take(j).to_set());
        assert(rr(m, prev, sp) is None);
        lemma_path_none(m, path, j - 1);
    }
}

// ---------------------------------------------------------------------------
// Executable palette types.
// ---------------------------------------------------------------------------

/// The unresolved palette: named entries whose bases may reference
/// other entries. Names are unique.
#[derive(Debug, Clone)]
pub struct Palette {
    pub colors: Vec<(String, Color)>,
}

impl View for Palette {
    type V = Map<Seq<char>, ColorView>;

    open spec fn view(&self) -> Map<Seq<char>, ColorView> {
        entries_map(self.colors@)
    }
}

/// The fully resolved palette: every name maps to a literal color.
#[derive(Debug, Clone)]
pub struct ResolvedPalette {
    pub colors: Vec<(String, HexColor)>,
}

impl View for ResolvedPalette {
    type V = Map<Seq<char>, HexColor>;

    open spec fn view(&self) -> Map<Seq<char>, HexColor> {
        hex_entries_map(self.colors@)
    }
}

/// The name sequence of a dependency stack.
pub open spec fn names_of(d: Seq<String>) -> Seq<Seq<char>> {
    d.map_values(|s: String| s@)
}

/// The dependency stack is a linked reference chain of distinct live
/// names whose last entry references `n`.
pub open spec fn deps_ok(m: Map<Seq<char>, ColorView>, d: Seq<String>, n: Seq<char>) -> bool {
    let p = names_of(d);
    &&& forall|k: int| 0 <= k < p.len() ==> m.dom().contains(#[trigger] p[k])
    &&& forall|k: int|
        0 <= k < p.len() - 1 ==> m[#[trigger] p[k]].base == BaseKind::Reference(p[k + 1])
    &&& (p.len() > 0 ==> m[p.last()].base == BaseKind::Reference(n))
    &&& forall|k1: int, k2: int| 0 <= k1 < k2 < p.len() ==> p[k1] != p[k2]
}

/// Every memo entry is a finished resolution, and entries are unique.
pub open spec fn memo_ok(m: Map<Seq<char>, ColorView>, mm: Seq<(String, HexColor)>) -> bool {
    &&& forall|i: int| 0 <= i < mm.len() ==> rr(m, #[trigger] mm[i].0@, Set::empty()) == Some(mm[i].1)
    &&& distinct_names(mm)
}

/// Some memo entry maps `n` to `h`.
pub open spec fn memo_has(mm: Seq<(String, HexColor)>, n: Seq<char>, h: HexColor) -> bool {
    exists|i: int| 0 <= i < mm.len() && #[trigger] mm[i].0@ == n && mm[i].1 == h
}

/// Some memo entry carries the name `n`.
pub open spec fn memo_covers(mm: Seq<(String, HexColor)>, n: Seq<char>) -> bool {
    exists|i: int| 0 <= i < mm.len() && #[trigger] mm[i].0@ == n
}

/// Every entry of the mapping resolves.
pub open spec fn resolvable(m: Map<Seq<char>, ColorView>) -> bool {
    forall|n: Seq<char>| #[trigger] m.dom().contains(n) ==> rr(m, n, Set::empty()) is Some
}

/// The name whose resolution the whole current descent serves.
pub open spec fn chain_top(d: Seq<String>, n: Seq<char>) -> Seq<char> {
    if d.len() == 0 {
        n
    } else {
        d[0]@
    }
}

/// What each error value reports is true of the mapping.
pub open spec fn error_describes(m: Map<Seq<char>, ColorView>, e: ThemeError) -> bool {
    match e {
        ThemeError::SelfCycle { name } => m.dom().contains(name@) && m[name@].base
            == BaseKind::Reference(name@),
        ThemeError::Cycle { chain } => {
            &&& chain@.len() >= 2
            &&& forall|k: int| 0 <= k < chain@.len() ==> m.dom().contains(#[trigger] chain@[k]@)
            &&& forall|k1: int, k2: int|
                0 <= k1 < k2 < chain@.len() ==> chain@[k1]@ != chain@[k2]@
            &&& forall|k: int|
                0 <= k < chain@.len() - 1 ==> m[#[trigger] chain@[k]@].base == BaseKind::Reference(
                    chain@[k + 1]@,
                )
            &&& m[chain@.last()@].base == BaseKind::Reference(chain@[0]@)
        },
        ThemeError::MissingReference { name } => !m.dom().contains(name@) && exists|q: Seq<char>|
            #[trigger] m.dom().contains(q) && m[q].base == BaseKind::Reference(name@),
        ThemeError::InvalidTarget { .. } => false,
    }
}

/// The resolved mapping `rm` is exactly what resolution of `m` yields.
pub open spec fn spec_resolves_to(
    m: Map<Seq<char>, ColorView>,
    rm: Map<Seq<char>, HexColor>,
) -> bool {
    &&& rm.dom() == m.dom()
    &&& forall|n: Seq<char>| #[trigger] m.dom().contains(n) ==> rr(m, n, Set::empty()) == Some(rm[n])
}

/// A stack of distinct live names is no longer than the palette.
proof fn lemma_deps_card(m: Map<Seq<char>, ColorView>, d: Seq<String>)
    requires
        m.dom().finite(),
        forall|k: int| 0 <= k < names_of(d).len() ==> m.dom().contains(#[trigger] names_of(d)[k]),
        forall|k1: int, k2: int|
            0 <= k1 < k2 < names_of(d).len() ==> names_of(d)[k1] != names_of(d)[k2],
    ensures
        d.len() <= m.dom().len(),
{
    broadcast use vstd::set::group_set_axioms;
    broadcast use vstd::seq_lib::group_seq_lib_default;

    let p = names_of(d);
    p.unique_seq_to_set();
    assert forall|q: Seq<char>| p.to_set().contains(q) implies m.dom().contains(q) by {
        let k = choose|k: int| 0 <= k < p.len() && p[k] == q;
    }
    lemma_len_subset(p.to_set(), m.dom());
}

fn memo_get(memo: &Vec<(String, HexColor)>, name: &String) -> (r: Option<HexColor>)
    ensures
        match r {
            Some(h) => memo_has(memo@, name@, h),
            None => !memo_covers(memo@, name@),
        },
{
    let n = memo.len();
    let mut k: usize = 0;
    while k < n
        invariant
            n == memo@.len(),
            k <= n,
            forall|i: int| 0 <= i < k ==> #[trigger] memo@[i].0@ != name@,
        decreases n - k,
    {
        if memo[k].0.eq(name) {
            return Some(memo[k].1);
        }
        k += 1;
    }
    None
}

fn deps_find(deps: &Vec<String>, name: &String) -> (r: Option<usize>)
    ensures
        match r {
            Some(idx) => idx < deps@.len() && deps@[idx as int]@ == name@,
            None => forall|i: int| 0 <= i < deps@.len() ==> #[trigger] deps@[i]@ != name@,
        },
{
    let n = deps.len();
    let mut k: usize = 0;
    while k < n
        invariant
            n == deps@.len(),
            k <= n,
            forall|i: int| 0 <= i < k ==> #[trigger] deps@[i]@ != name@,
        decreases n - k,
    {
        if deps[k].eq(name) {
            return Some(k);
        }
        k += 1;
    }
    None
}

impl Palette {
    /// Entry names are unique.
    pub open spec fn wf(&self) -> bool {
        distinct_names(self.colors@)
    }

    /// Looks an entry up by name.
    pub fn find_color(&self, name: &String) -> (r: Option<&Color>)
        requires
            self.wf(),
        ensures
            match r {
                Some(c) => self@.dom().contains(name@) && c@ == self@[name@],
                None => !self@.dom().contains(name@),
            },
    {
        proof {
            lemma_entries_map_dom(self.colors@);
        }
        let n = self.colors.len();
        let mut k: usize = 0;
        while k < n
            invariant
                self.wf(),
                n == self.colors@.len(),
                k <= n,
                forall|i: int| 0 <= i < k ==> #[trigger] self.colors@[i].0@ != name@,
            decreases n - k,
        {
            if self.colors[k].0.eq(name) {
                proof {
                    lemma_entries_map_value(self.colors@, k as int);
                }
                return Some(&self.colors[k].1);
            }
            k += 1;
        }
        proof {
            lemma_entries_map_dom(self.colors@);
        }
        None
    }

    /// Resolves one entry depth-first, memoizing finished entries in
    /// `memo` and tracking the current reference chain in `deps`.
    fn resolve_color(
        &self,
        name: &String,
        color: &Color,
        memo: &mut Vec<(String, HexColor)>,
        deps: &mut Vec<String>,
    ) -> (r: Result<HexColor, ThemeError>)
        requires
            self.wf(),
            self@.dom().contains(name@),
            self@[name@] == color@,
            memo_ok(self@, old(memo)@),
            deps_ok(self@, old(deps)@, name@),
            old(deps)@.len() <= self@.dom().len(),
        ensures
            memo_ok(self@, final(memo)@),
            final(memo)@.len() >= old(memo)@.len(),
            forall|i: int| 0 <= i < old(memo)@.len() ==> final(memo)@[i] == old(memo)@[i],
            match r {
                Ok(h) => {
                    &&& rr(self@, name@, names_of(old(deps)@).to_set()) == Some(h)
                    &&& rr(self@, name@, Set::empty()) == Some(h)
                    &&& memo_has(final(memo)@, name@, h)
                },
                Err(e) => {
                    &&& rr(self@, chain_top(old(deps)@, name@), Set::empty()) is None
                    &&& self@.dom().contains(chain_top(old(deps)@, name@))
                    &&& error_describes(self@, e)
                },
            },
        decreases self@.dom().len() - old(deps)@.len(),
    {
        broadcast use vstd::set::group_set_axioms;
        broadcast use vstd::seq_lib::group_seq_lib_default;

        let ghost m = self@;
        let ghost dpath = names_of(deps@);
        proof {
            lemma_entries_map_dom(self.colors@);
        }
        if let Some(h) = memo_get(memo, name) {
            proof {
                let i = choose|i: int|
                    0 <= i < memo@.len() && #[trigger] memo@[i].0@ == name@ && memo@[i].1 == h;
                assert(rr(m, name@, Set::empty()) == Some(h));
                lemma_memo_lift(m, dpath, name@);
            }
            return Ok(h);
        }
        if let Some(idx) = deps_find(deps, name) {
            // The chain has come back to a name it already holds: the
            // segment from that name onward is a genuine cycle.
            proof {
                assert(dpath[idx as int] == name@);
                assert(rr(m, dpath.last(), dpath.take(dpath.len() - 1).to_set()) is None) by {
                    let sp = dpath.take(dpath.len() - 1).to_set();
                    if sp.contains(dpath.last()) {
                        let k = choose|k: int|
                            0 <= k < dpath.len() - 1 && #[trigger] dpath.take(dpath.len() - 1)[k]
                                == dpath.last();
                    } else {
                        assert(m[dpath.last()].base == BaseKind::Reference(name@));
                        if idx as int == dpath.len() - 1 {
                            assert(rr(m, name@, sp.insert(dpath.last())) is None);
                        } else {
                            assert(sp.contains(name@)) by {
                                assert(dpath.take(dpath.len() - 1)[idx as int] == name@);
                            }
                            assert(rr(m, name@, sp.insert(dpath.last())) is None);
                        }
                    }
                }
                lemma_path_none(m, dpath, dpath.len() - 1);
                assert(chain_top(deps@, name@) == dpath[0]);
            }
            if deps.len() - idx <= 1 {
                return Err(ThemeError::SelfCycle { name: name.clone() });
            }
            let mut chain: Vec<String> = Vec::new();
            let mut k: usize = idx;
            while k < deps.len()
                invariant
                    idx <= k <= deps@.len(),
                    chain@.len() == k - idx,
                    forall|i: int| 0 <= i < chain@.len() ==> chain@[i]@ == #[trigger] deps@[idx + i]@,
                decreases deps@.len() - k,
            {
                chain.push(deps[k].clone());
                k += 1;
            }
            proof {
                let cl = chain@.len() as int;
                assert forall|k: int| 0 <= k < cl implies chain@[k]@ == dpath[idx + k] by {
                    assert(chain@[k]@ == deps@[idx + k]@);
                }
                assert forall|k1: int, k2: int| 0 <= k1 < k2 < cl implies chain@[k1]@
                    != chain@[k2]@ by {
                    assert(chain@[k1]@ == dpath[idx + k1]);
                    assert(chain@[k2]@ == dpath[idx + k2]);
                }
                assert forall|k: int| 0 <= k < cl implies m.dom().contains(
                    #[trigger] chain@[k]@,
                ) by {
                    assert(chain@[k]@ == dpath[idx + k]);
                }
                assert forall|k: int| 0 <= k < cl - 1 implies m[#[trigger] chain@[k]@].base
                    == BaseKind::Reference(chain@[k + 1]@) by {
                    assert(chain@[k]@ == dpath[idx + k]);
                    assert(chain@[k + 1]@ == dpath[idx + k + 1]);
                }
                assert(m[chain@.last()@].base == BaseKind::Reference(chain@[0]@)) by {
                    assert(chain@[cl - 1]@ == dpath[idx + cl - 1]);
                    assert(idx + cl - 1 == dpath.len() - 1);
                    assert(m[dpath.last()].base == BaseKind::Reference(name@));
                    assert(chain@[0]@ == dpath[idx as int]);
                }
            }
            return Err(ThemeError::Cycle { chain });
        }
        proof {
            assert forall|k: int| 0 <= k < dpath.len() implies #[trigger] dpath[k] != name@ by {
                assert(deps@[k]@ != name@);
            }
            assert(!dpath.to_set().contains(name@)) by {
                if dpath.to_set().contains(name@) {
                    let k = choose|k: int| 0 <= k < dpath.len() && #[trigger] dpath[k] == name@;
                }
            }
        }
        deps.push(name.clone());
        let ghost dpush = deps@;
        proof {
            assert(names_of(dpush) =~= dpath.push(name@));
            dpath.lemma_push_to_set_commute(name@);
        }
        let resolved: HexColor = match &color.base {
            BaseColorKind::Hex(h) => *h,
            BaseColorKind::PaletteReference(reference) => {
                proof {
                    assert(m[name@].base == BaseKind::Reference(reference@));
                    assert forall|k: int| 0 <= k < names_of(dpush).len() implies m.dom().contains(
                        #[trigger] names_of(dpush)[k],
                    ) by {
                        if k < dpath.len() {
                            assert(names_of(dpush)[k] == dpath[k]);
                        }
                    }
                }
                match self.find_color(reference) {
                    None => {
                        proof {
                            let path2 = names_of(dpush);
                            assert(rr(m, path2.last(), path2.take(path2.len() - 1).to_set())
                                is None) by {
                                let sp = path2.take(path2.len() - 1).to_set();
                                assert(path2.take(path2.len() - 1) =~= dpath);
                                assert(path2.last() == name@);
                                assert(!sp.contains(name@));
                                assert(rr(m, reference@, sp.insert(name@)) is None);
                            }
                            lemma_path_none(m, path2, path2.len() - 1);
                            assert(chain_top(old(deps)@, name@) == path2[0]);
                        }
                        return Err(ThemeError::MissingReference { name: reference.clone() });
                    },
                    Some(dep_color) => {
                        proof {
                            lemma_deps_card(m, deps@);
                        }
                        match self.resolve_color(reference, dep_color, memo, deps) {
                            Ok(h) => h,
                            Err(e) => {
                                proof {
                                    assert(chain_top(dpush, reference@) == names_of(dpush)[0]);
                                    assert(chain_top(old(deps)@, name@) == dpath.push(name@)[0]);
                                }
                                return Err(e);
                            },
                        }
                    },
                }
            },
        };
        let modified = resolved.apply_modifiers(color.modifiers);
        proof {
            let seen0 = dpath.to_set();
            assert(rr(m, name@, seen0) == Some(modified)) by {
                match m[name@].base {
                    BaseKind::Literal(_) => {},
                    BaseKind::Reference(rn) => {
                        assert(rr(m, rn, names_of(dpush).to_set()) is Some);
                        assert(names_of(dpush).to_set() == seen0.insert(name@));
                    },
                }
            }
            lemma_shrink_seen(m, name@, seen0, Set::empty());
        }
        let already = memo_get(memo, name);
        if already.is_none() {
            let ghost mm0 = memo@;
            memo.push((name.clone(), modified));
            proof {
                assert(memo_has(memo@, name@, modified)) by {
                    assert(memo@[memo@.len() - 1].0@ == name@ && memo@[memo@.len() - 1].1
                        == modified);
                }
                assert forall|i: int| 0 <= i < memo@.len() implies rr(
                    m,
                    #[trigger] memo@[i].0@,
                    Set::empty(),
                ) == Some(memo@[i].1) by {
                    if i < mm0.len() {
                        assert(memo@[i] == mm0[i]);
                    }
                }
                assert(distinct_names(memo@)) by {
                    assert forall|i: int, j: int| 0 <= i < j < memo@.len() implies memo@[i].0@
                        != memo@[j].0@ by {
                        if j == memo@.len() - 1 {
                            assert(memo@[i] == mm0[i]);
                        } else {
                            assert(memo@[i] == mm0[i]);
                            assert(memo@[j] == mm0[j]);
                        }
                    }
                }
            }
        } else {
            proof {
                let h2 = already.unwrap();
                let i = choose|i: int|
                    0 <= i < memo@.len() && #[trigger] memo@[i].0@ == name@ && memo@[i].1 == h2;
                assert(rr(m, name@, Set::empty()) == Some(h2));
                assert(memo_has(memo@, name@, modified));
            }
        }
        Ok(modified)
    }

    /// Resolves every entry of the palette, or reports the first
    /// structural mistake found. Success and the resolved values depend
    /// only on the palette's mapping, not on entry order.
    pub fn resolve(&self) -> (r: Result<ResolvedPalette, ThemeError>)
        requires
            self.wf(),
        ensures
            match r {
                Ok(rp) => {
                    &&& rp.wf()
                    &&& resolvable(self@)
                    &&& spec_resolves_to(self@, rp@)
                },
                Err(e) => {
                    &&& !resolvable(self@)
                    &&& error_describes(self@, e)
                },
            },
    {
        broadcast use vstd::set::group_set_axioms;
        broadcast use vstd::seq_lib::group_seq_lib_default;

        let ghost m = self@;
        proof {
            lemma_entries_map_dom(self.colors@);
        }
        let mut memo: Vec<(String, HexColor)> = Vec::new();
        let n = self.colors.len();
        let mut i: usize = 0;
        while i < n
            invariant
                self.wf(),
                m == self@,
                n == self.colors@.len(),
                i <= n,
                memo_ok(m, memo@),
                forall|j: int| 0 <= j < i ==> memo_covers(memo@, #[trigger] self.colors@[j].0@),
            decreases n - i,
        {
            let ghost mm0 = memo@;
            let mut deps: Vec<String> = Vec::new();
            proof {
                assert(names_of(deps@) =~= Seq::<Seq<char>>::empty());
                lemma_entries_map_dom(self.colors@);
                lemma_entries_map_value(self.colors@, i as int);
            }
            let entry = &self.colors[i];
            let ghost ename = entry.0@;
            match self.resolve_color(&entry.0, &entry.1, &mut memo, &mut deps) {
                Ok(hres) => {
                    proof {
                        assert(memo_covers(memo@, ename)) by {
                            let k = choose|k: int|
                                0 <= k < memo@.len() && #[trigger] memo@[k].0@ == ename
                                    && memo@[k].1 == hres;
                        }
                        assert forall|j: int| 0 <= j < i + 1 implies memo_covers(
                            memo@,
                            #[trigger] self.colors@[j].0@,
                        ) by {
                            if j < i {
                                let k = choose|k: int|
                                    0 <= k < mm0.len() && #[trigger] mm0[k].0@
                                        == self.colors@[j].0@;
                                assert(memo@[k].0@ == self.colors@[j].0@);
                            }
                        }
                    }
                },
                Err(e) => {
                    proof {
                        assert(rr(m, ename, Set::empty()) is None);
                        assert(!resolvable(m));
                    }
                    return Err(e);
                },
            }
            i += 1;
        }
        let rp = ResolvedPalette { colors: memo };
        proof {
            lemma_entries_map_dom(self.colors@);
            lemma_hex_entries_map_dom(rp.colors@);
            assert(rp@.dom() =~= m.dom()) by {
                assert forall|q: Seq<char>| rp@.dom().contains(q) implies m.dom().contains(q) by {
                    let k = choose|k: int|
                        0 <= k < rp.colors@.len() && #[trigger] rp.colors@[k].0@ == q;
                    assert(rr(m, q, Set::empty()) is Some);
                }
                assert forall|q: Seq<char>| m.dom().contains(q) implies rp@.dom().contains(q) by {
                    let j = choose|j: int|
                        0 <= j < self.colors@.len() && #[trigger] self.colors@[j].0@ == q;
                    let k = choose|k: int|
                        0 <= k < rp.colors@.len() && #[trigger] rp.colors@[k].0@ == q;
                }
            }
            assert forall|q: Seq<char>| #[trigger] m.dom().contains(q) implies rr(m, q, Set::empty())
                == Some(rp@[q]) by {
                let k = choose|k: int|
                    0 <= k < rp.colors@.len() && #[trigger] rp.colors@[k].0@ == q;
                assert forall|j: int| k < j < rp.colors@.len() implies rp.colors@[j].0@
                    != rp.colors@[k].0@ by {}
                lemma_hex_entries_map_value(rp.colors@, k);
            }
        }
        Ok(rp)
    }
}

impl ResolvedPalette {
    /// Entry names are unique.
    pub open spec fn wf(&self) -> bool {
        distinct_names(self.colors@)
    }
}

/// What looking a single color up against a resolved mapping yields:
/// a literal base is taken as is, a reference is taken from the
/// mapping, and the color's own modifiers are applied on top.
pub open spec fn spec_lookup(rm: Map<Seq<char>, HexColor>, c: ColorView) -> Option<HexColor> {
    match c.base {
        BaseKind::Literal(h) => Some(spec_apply_modifiers(h, c.modifiers)),
        BaseKind::Reference(n) => if rm.dom().contains(n) {
            Some(spec_apply_modifiers(rm[n], c.modifiers))
        } else {
            None
        },
    }
}

impl ResolvedPalette {
    /// Resolves one ad-hoc color against this palette: succeeds if and
    /// only if the color's base is literal or its reference is present.
    pub fn lookup(&self, color: &Color) -> (r: Result<HexColor, ThemeError>)
        requires
            self.wf(),
        ensures
            match r {
                Ok(h) => spec_lookup(self@, color@) == Some(h),
                Err(e) => {
                    &&& spec_lookup(self@, color@) is None
                    &&& e matches ThemeError::MissingReference { name } && color@.base
                        == BaseKind::Reference(name@)
                },
            },
    {
        broadcast use vstd::set::group_set_axioms;

        match &color.base {
            BaseColorKind::Hex(h) => Ok(h.apply_modifiers(color.modifiers)),
            BaseColorKind::PaletteReference(pal_ref) => {
                proof {
                    assert(color@.base == BaseKind::Reference(pal_ref@));
                }
                let n = self.colors.len();
                let mut k: usize = 0;
                while k < n
                    invariant
                        self.wf(),
                        n == self.colors@.len(),
                        k <= n,
                        color@.base == BaseKind::Reference(pal_ref@),
                        forall|i: int| 0 <= i < k ==> #[trigger] self.colors@[i].0@ != pal_ref@,
                    decreases n - k,
                {
                    if self.colors[k].0.eq(pal_ref) {
                        proof {
                            lemma_hex_entries_map_value(self.colors@, k as int);
                            assert(self.colors@[k as int].0@ == pal_ref@);
                            assert(self@.dom().contains(pal_ref@));
                            assert(self@[pal_ref@] == self.colors@[k as int].1);
                            assert(color@.base == BaseKind::Reference(pal_ref@));
                        }
                        let h = self.colors[k].1;
                        return Ok(h.apply_modifiers(color.modifiers));
                    }
                    k += 1;
                }
                proof {
                    lemma_hex_entries_map_dom(self.colors@);
                }
                Err(ThemeError::MissingReference { name: pal_ref.clone() })
            },
        }
    }
}

/// An entry that directly references itself makes the palette
/// unresolvable, so `resolve` must report an error for it.
pub proof fn lemma_self_cycle_fails(m: Map<Seq<char>, ColorView>, n: Seq<char>)
    requires
        m.dom().finite(),
        m.dom().contains(n),
        m[n].base == BaseKind::Reference(n),
    ensures
        !resolvable(m),
{
    assert(rr(m, n, Set::empty().insert(n)) is None);
    assert(rr(m, n, Set::empty()) is None);
}

/// In a palette whose single entry references itself, every error value
/// the resolver's contract admits is the distinct "depends on itself"
/// report naming that entry.
pub proof fn lemma_self_cycle_reported(m: Map<Seq<char>, ColorView>, n: Seq<char>, e: ThemeError)
    requires
        m.dom() == Set::empty().insert(n),
        m[n].base == BaseKind::Reference(n),
        error_describes(m, e),
    ensures
        e matches ThemeError::SelfCycle { name } && name@ == n,
{
    broadcast use vstd::set::group_set_axioms;

    match e {
        ThemeError::SelfCycle { name } => {
            assert(name@ == n);
        },
        ThemeError::Cycle { chain } => {
            assert(chain@[0]@ == n);
            assert(chain@[1]@ == n);
        },
        ThemeError::MissingReference { name } => {
            let q = choose|q: Seq<char>|
                #[trigger] m.dom().contains(q) && m[q].base == BaseKind::Reference(name@);
            assert(q == n);
        },
        ThemeError::InvalidTarget { .. } => {},
    }
}

/// A three-entry cycle `a -> b -> c -> a` makes the palette
/// unresolvable, and every error value the resolver's contract admits
/// is a cycle report whose chain holds exactly `a`, `b` and `c`, each
/// referencing the next and the last referencing the first.
pub proof fn lemma_three_cycle_reported(
    m: Map<Seq<char>, ColorView>,
    a: Seq<char>,
    b: Seq<char>,
    c: Seq<char>,
    e: ThemeError,
)
    requires
        a != b,
        b != c,
        a != c,
        m.dom() == Set::empty().insert(a).insert(b).insert(c),
        m[a].base == BaseKind::Reference(b),
        m[b].base == BaseKind::Reference(c),
        m[c].base == BaseKind::Reference(a),
        error_describes(m, e),
    ensures
        !resolvable(m),
        e matches ThemeError::Cycle { chain } && chain@.len() == 3 && {
            ||| (chain@[0]@ == a && chain@[1]@ == b && chain@[2]@ == c)
            ||| (chain@[0]@ == b && chain@[1]@ == c && chain@[2]@ == a)
            ||| (chain@[0]@ == c && chain@[1]@ == a && chain@[2]@ == b)
        },
{
    broadcast use vstd::set::group_set_axioms;

    assert(!resolvable(m)) by {
        let s0 = Set::<Seq<char>>::empty();
        assert(rr(m, a, s0.insert(a).insert(b).insert(c)) is None);
        assert(rr(m, c, s0.insert(a).insert(b)) is None);
        assert(rr(m, b, s0.insert(a)) is None);
        assert(rr(m, a, s0) is None);
    }
    match e {
        ThemeError::SelfCycle { name } => {
            assert(m.dom().contains(name@));
        },
        ThemeError::MissingReference { name } => {
            let q = choose|q: Seq<char>|
                #[trigger] m.dom().contains(q) && m[q].base == BaseKind::Reference(name@);
            assert(m.dom().contains(name@));
        },
        ThemeError::Cycle { chain } => {
            let s = chain@;
            assert(m.dom().contains(s[0]@));
            assert(m.dom().contains(s[1]@));
            if s.len() >= 4 {
                assert(m.dom().contains(s[2]@));
                assert(m.dom().contains(s[3]@));
                assert(false);
            }
            if s.len() == 2 {
                assert(m[s[0]@].base == BaseKind::Reference(s[1]@));
                assert(m[s.last()@].base == BaseKind::Reference(s[0]@));
                assert(false);
            }
            assert(s.len() == 3);
            assert(m.dom().contains(s[2]@));
            assert(m[s[0]@].base == BaseKind::Reference(s[1]@));
            assert(m[s[1]@].base == BaseKind::Reference(s[2]@));
            assert(m[s.last()@].base == BaseKind::Reference(s[0]@));
        },
        ThemeError::InvalidTarget { .. } => {},
    }
}

/// Lexicographic order on names by code point, the order `str`
/// comparison gives.
pub open spec fn lex_le(a: Seq<char>, b: Seq<char>) -> bool
    decreases a.len(),
{
    if a.len() == 0 {
        true
    } else if b.len() == 0 {
        false
    } else if (a[0] as u32) != (b[0] as u32) {
        (a[0] as u32) < (b[0] as u32)
    } else {
        lex_le(a.drop_first(), b.drop_first())
    }
}

pub proof fn lemma_lex_total(a: Seq<char>, b: Seq<char>)
    ensures
        lex_le(a, b) || lex_le(b, a),
    decreases a.len(),
{
    if a.len() > 0 && b.len() > 0 && (a[0] as u32) == (b[0] as u32) {
        lemma_lex_total(a.drop_first(), b.drop_first());
    }
}

pub proof fn lemma_lex_trans(a: Seq<char>, b: Seq<char>, c: Seq<char>)
    requires
        lex_le(a, b),
        lex_le(b, c),
    ensures
        lex_le(a, c),
    decreases a.len(),
{
    if a.len() > 0 && b.len() > 0 && c.len() > 0 && (a[0] as u32) == (b[0] as u32) && (b[0] as u32)
        == (c[0] as u32) {
        lemma_lex_trans(a.drop_first(), b.drop_first(), c.drop_first());
    }
}

/// Compares two names in lexicographic code point order.
pub fn str_le(a: &String, b: &String) -> (r: bool)
    ensures
        r == lex_le(a@, b@),
{
    let na = a.as_str().unicode_len();
    let nb = b.as_str().unicode_len();
    let mut i: usize = 0;
    proof {
        assert(a@.skip(0) =~= a@);
        assert(b@.skip(0) =~= b@);
    }
    while i < na && i < nb
        invariant
            na == a@.len(),
            nb == b@.len(),
            i <= na,
            i <= nb,
            lex_le(a@, b@) == lex_le(a@.skip(i as int), b@.skip(i as int)),
            lex_le(b@, a@) == lex_le(b@.skip(i as int), a@.skip(i as int)),
        decreases na - i,
    {
        let ca = a.as_str().get_char(i);
        let cb = b.as_str().get_char(i);
        if (ca as u32) != (cb as u32) {
            proof {
                assert(a@.skip(i as int)[0] == ca);
                assert(b@.skip(i as int)[0] == cb);
            }
            return (ca as u32) < (cb as u32);
        }
        proof {
            assert(a@.skip(i as int)[0] == ca);
            assert(b@.skip(i as int)[0] == cb);
            assert(a@.skip(i as int).drop_first() =~= a@.skip(i + 1));
            assert(b@.skip(i as int).drop_first() =~= b@.skip(i + 1));
        }
        i += 1;
    }
    proof {
        if i >= na {
            assert(a@.skip(i as int).len() == 0);
        } else {
            assert(b@.skip(i as int).len() == 0);
            assert(a@.skip(i as int).len() > 0);
        }
    }
    na <= nb
}

/// Inserting a fresh name anywhere in the entry list inserts it into
/// the mapping.
proof fn lemma_entries_map_insert_mid(s: Seq<(String, Color)>, i: int, p: (String, Color))
    requires
        0 <= i <= s.len(),
        forall|k: int| 0 <= k < s.len() ==> (#[trigger] s[k]).0@ != p.0@,
    ensures
        entries_map(s.insert(i, p)) == entries_map(s).insert(p.0@, p.1@),
    decreases s.len(),
{
    broadcast use vstd::seq_lib::group_seq_lib_default;

    let s2 = s.insert(i, p);
    if i == s.len() {
        assert(s2.drop_last() =~= s);
        assert(s2.last() == p);
    } else {
        assert(s2.last() == s.last());
        assert(s2.drop_last() =~= s.drop_last().insert(i, p));
        assert(forall|k: int|
            0 <= k < s.drop_last().len() ==> (#[trigger] s.drop_last()[k]).0@ != p.0@);
        lemma_entries_map_insert_mid(s.drop_last(), i, p);
        assert(s.last().0@ != p.0@);
        assert(entries_map(s2) =~= entries_map(s).insert(p.0@, p.1@));
    }
}

/// The entry names are sorted.
pub open spec fn sorted_names(s: Seq<(String, Color)>) -> bool {
    forall|i: int, j: int| 0 <= i < j < s.len() ==> lex_le(s[i].0@, s[j].0@)
}

/// The authored palette that writes every resolved color literally.
pub open spec fn literal_palette_of(rm: Map<Seq<char>, HexColor>) -> Map<Seq<char>, ColorView> {
    Map::new(
        |n: Seq<char>| rm.dom().contains(n),
        |n: Seq<char>|
            ColorView {
                base: BaseKind::Literal(rm[n]),
                modifiers: crate::color::ColorModifiers::spec_empty(),
            },
    )
}

/// A palette whose entries are all literal resolves on every name.
pub proof fn lemma_literal_resolvable(m: Map<Seq<char>, ColorView>)
    requires
        m.dom().finite(),
        forall|n: Seq<char>| #[trigger]
            m.dom().contains(n) ==> m[n].base is Literal,
    ensures
        resolvable(m),
{
    assert forall|n: Seq<char>| #[trigger] m.dom().contains(n) implies rr(
        m,
        n,
        Set::empty(),
    ) is Some by {
        match m[n].base {
            BaseKind::Literal(_) => {},
            BaseKind::Reference(_) => {},
        }
    }
}

impl ResolvedPalette {
    /// Turns the resolved table back into an authored palette whose
    /// entries are the literal colors, sorted by name for
    /// deterministic output.
    pub fn into_raw_palette(self) -> (r: Palette)
        requires
            self.wf(),
        ensures
            r.wf(),
            sorted_names(r.colors@),
            r@ == literal_palette_of(self@),
    {
        broadcast use vstd::seq::group_seq_axioms;

        let mut out: Vec<(String, Color)> = Vec::new();
        let n = self.colors.len();
        let mut i: usize = 0;
        proof {
            lemma_hex_entries_map_dom(self.colors@);
            assert(entries_map(out@) =~= literal_palette_of(
                hex_entries_map(self.colors@.take(0)),
            )) by {
                assert(self.colors@.take(0) =~= Seq::<(String, HexColor)>::empty());
            }
        }
        while i < n
            invariant
                n == self.colors@.len(),
                i <= n,
                self.wf(),
                distinct_names(out@),
                sorted_names(out@),
                entries_map(out@) == literal_palette_of(
                    hex_entries_map(self.colors@.take(i as int)),
                ),
            decreases n - i,
        {
            let entry = &self.colors[i];
            let color = Color {
                base: BaseColorKind::Hex(entry.1),
                modifiers: crate::color::ColorModifiers::empty(),
            };
            // Find the insertion slot that keeps names sorted.
            let m = out.len();
            let mut pos: usize = 0;
            while pos < m
                invariant
                    m == out@.len(),
                    pos <= m,
                    forall|k: int| 0 <= k < pos ==> lex_le((#[trigger] out@[k]).0@, entry.0@),
                ensures
                    pos <= m,
                    forall|k: int| 0 <= k < pos ==> lex_le((#[trigger] out@[k]).0@, entry.0@),
                    pos < m ==> !lex_le(out@[pos as int].0@, entry.0@),
                decreases m - pos,
            {
                if !str_le(&out[pos].0, &entry.0) {
                    break ;
                }
                pos += 1;
            }
            proof {
                assert forall|k: int| pos <= k < out@.len() implies lex_le(
                    entry.0@,
                    (#[trigger] out@[k]).0@,
                ) by {
                    lemma_lex_total(out@[pos as int].0@, entry.0@);
                    if k > pos {
                        lemma_lex_trans(entry.0@, out@[pos as int].0@, out@[k].0@);
                    }
                }
                lemma_fresh_in_out(out@, self.colors@, i as int);
            }
            let ghost out0 = out@;
            out.insert(pos, (entry.0.clone(), color));
            proof {
                assert(out@ =~= out0.insert(pos as int, out@[pos as int]));
                lemma_sorted_insert(out0, pos as int, out@[pos as int]);
                lemma_take_step(self.colors@, i as int);
                assert(entries_map(out@) =~= literal_palette_of(
                    hex_entries_map(self.colors@.take(i + 1)),
                ));
            }
            i += 1;
        }
        proof {
            assert(self.colors@.take(n as int) =~= self.colors@);
        }
        Palette { colors: out }
    }
}

/// A name not yet carried over is no name of the sorted output.
proof fn lemma_fresh_in_out(out0: Seq<(String, Color)>, src: Seq<(String, HexColor)>, i: int)
    requires
        0 <= i < src.len(),
        distinct_names(src),
        entries_map(out0) == literal_palette_of(hex_entries_map(src.take(i))),
    ensures
        forall|k: int| 0 <= k < out0.len() ==> (#[trigger] out0[k]).0@ != src[i].0@,
{
    broadcast use vstd::seq::group_seq_axioms;

    lemma_entries_map_dom(out0);
    lemma_hex_entries_map_dom(src.take(i));
    assert forall|k: int| 0 <= k < out0.len() implies (#[trigger] out0[k]).0@ != src[i].0@ by {
        if out0[k].0@ == src[i].0@ {
            assert(entries_map(out0).dom().contains(out0[k].0@));
            assert(hex_entries_map(src.take(i)).dom().contains(src[i].0@));
            let j = choose|j: int| 0 <= j < src.take(i).len() && #[trigger] src.take(i)[j].0@ == src[i].0@;
            assert(src[j].0@ == src[i].0@);
        }
    }
}

/// Inserting a fresh, correctly placed entry keeps the output sorted,
/// duplicate-free, and equal to the extended mapping.
proof fn lemma_sorted_insert(out0: Seq<(String, Color)>, pos: int, p: (String, Color))
    requires
        0 <= pos <= out0.len(),
        distinct_names(out0),
        sorted_names(out0),
        forall|k: int| 0 <= k < pos ==> lex_le((#[trigger] out0[k]).0@, p.0@),
        forall|k: int| pos <= k < out0.len() ==> lex_le(p.0@, (#[trigger] out0[k]).0@),
        forall|k: int| 0 <= k < out0.len() ==> (#[trigger] out0[k]).0@ != p.0@,
    ensures
        distinct_names(out0.insert(pos, p)),
        sorted_names(out0.insert(pos, p)),
        entries_map(out0.insert(pos, p)) == entries_map(out0).insert(p.0@, p.1@),
{
    broadcast use vstd::seq::group_seq_axioms;

    lemma_entries_map_insert_mid(out0, pos, p);
    let s2 = out0.insert(pos, p);
    assert forall|i2: int, j2: int| 0 <= i2 < j2 < s2.len() implies lex_le(
        (#[trigger] s2[i2]).0@,
        (#[trigger] s2[j2]).0@,
    ) && s2[i2].0@ != s2[j2].0@ by {
        if j2 < pos {
            assert(s2[i2] == out0[i2] && s2[j2] == out0[j2]);
        } else if i2 < pos && j2 == pos {
            assert(s2[i2] == out0[i2]);
        } else if i2 < pos {
            assert(s2[i2] == out0[i2] && s2[j2] == out0[j2 - 1]);
        } else if i2 == pos {
            assert(s2[j2] == out0[j2 - 1]);
        } else {
            assert(s2[i2] == out0[i2 - 1] && s2[j2] == out0[j2 - 1]);
        }
    }
}

/// One more source entry extends the carried mapping by one name.
proof fn lemma_take_step(src: Seq<(String, HexColor)>, i: int)
    requires
        0 <= i < src.len(),
        distinct_names(src),
    ensures
        hex_entries_map(src.take(i + 1)) == hex_entries_map(src.take(i)).insert(
            src[i].0@,
            src[i].1,
        ),
{
    broadcast use vstd::seq::group_seq_axioms;

    assert(src.take(i + 1).drop_last() =~= src.take(i));
    assert(src.take(i + 1).last() == src[i]);
}

/// Resolution is confluent: the palette's mapping alone fixes the
/// resolved table, so any two successful resolutions of palettes with
/// equal mappings (in particular, of the same entries in any order)
/// agree on every name.
pub proof fn lemma_resolution_confluent(
    m: Map<Seq<char>, ColorView>,
    rm1: Map<Seq<char>, HexColor>,
    rm2: Map<Seq<char>, HexColor>,
)
    requires
        spec_resolves_to(m, rm1),
        spec_resolves_to(m, rm2),
    ensures
        rm1 == rm2,
{
    assert(rm1 =~= rm2);
}

} // verus!
