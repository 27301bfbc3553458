//! Automatic color naming and deduplication.
//!
//! The [`PaletteGenerator`] is fed literal colors and maintains an
//! injective mapping between RGB triples (alpha is carried as a per-use
//! modifier, never baked into a name) and descriptive names. A base
//! name is taken from the `colornamer` crate, normalized, and given a
//! numeric suffix when another triple already took it.
use crate::color::{push_char, BaseColorKind, Color, ColorModifiers, ColorView, HexColor, MOD_ONE};
use crate::palette::{lemma_hex_entries_map_dom, lemma_hex_entries_map_value, ResolvedPalette};
use vstd::arithmetic::div_mod::{lemma_div_multiples_vanish, lemma_fundamental_div_mod};
use vstd::prelude::*;
use vstd::set_lib::lemma_len_subset;

verus! {

/// The name the `colornamer` crate gives an RGB triple: the name of
/// the nearest entry of its built-in color lists, a function of the
/// three channels alone.
pub uninterp spec fn raw_color_name(r: u8, g: u8, b: u8) -> Seq<char>;

/// Relies on colornamer's `ColorNamer::new` and `name_hex_color`: built
/// over the crate's full built-in color lists, naming picks the entry
/// nearest to the given color, a deterministic function of the three
/// channels; a well-formed six-digit hex string never makes it fail.
#[verifier::external_body]
fn name_for_rgb(r: u8, g: u8, b: u8) -> (s: String)
    ensures
        s@ == raw_color_name(r, g, b),
{
    let namer = colornamer::ColorNamer::new(colornamer::Colors::all());
    match namer.name_hex_color(&format!("#{r:02x}{g:02x}{b:02x}")) {
        Ok(name) => name,
        Err(_) => String::new(),
    }
}

/// ASCII lowercasing of one character.
pub open spec fn spec_lower_char(c: char) -> char {
    match c {
        'A' => 'a',
        'B' => 'b',
        'C' => 'c',
        'D' => 'd',
        'E' => 'e',
        'F' => 'f',
        'G' => 'g',
        'H' => 'h',
        'I' => 'i',
        'J' => 'j',
        'K' => 'k',
        'L' => 'l',
        'M' => 'm',
        'N' => 'n',
        'O' => 'o',
        'P' => 'p',
        'Q' => 'q',
        'R' => 'r',
        'S' => 's',
        'T' => 't',
        'U' => 'u',
        'V' => 'v',
        'W' => 'w',
        'X' => 'x',
        'Y' => 'y',
        'Z' => 'z',
        _ => c,
    }
}

fn lower_char(c: char) -> (r: char)
    ensures
        r == spec_lower_char(c),
{
    match c {
        'A' => 'a',
        'B' => 'b',
        'C' => 'c',
        'D' => 'd',
        'E' => 'e',
        'F' => 'f',
        'G' => 'g',
        'H' => 'h',
        'I' => 'i',
        'J' => 'j',
        'K' => 'k',
        'L' => 'l',
        'M' => 'm',
        'N' => 'n',
        'O' => 'o',
        'P' => 'p',
        'Q' => 'q',
        'R' => 'r',
        'S' => 's',
        'T' => 't',
        'U' => 'u',
        'V' => 'v',
        'W' => 'w',
        'X' => 'x',
        'Y' => 'y',
        'Z' => 'z',
        _ => c,
    }
}

/// A space becomes a hyphen; everything else stays.
pub open spec fn spec_hyphen_char(c: char) -> char {
    if c == ' ' {
        '-'
    } else {
        c
    }
}

/// Strips spaces from both ends.
pub open spec fn spec_trim_spaces(s: Seq<char>) -> Seq<char>
    decreases s.len(),
{
    if s.len() > 0 && s[0] == ' ' {
        spec_trim_spaces(s.drop_first())
    } else if s.len() > 0 && s.last() == ' ' {
        spec_trim_spaces(s.drop_last())
    } else {
        s
    }
}

/// How a raw color name is turned into a palette entry name:
/// lowercased, stripped of outer spaces, inner spaces made hyphens.
pub open spec fn spec_normalize_name(s: Seq<char>) -> Seq<char> {
    spec_trim_spaces(s.map_values(|c: char| spec_lower_char(c))).map_values(
        |c: char| spec_hyphen_char(c),
    )
}

/// Normalizes a raw color name.
fn normalize_name(s: &str) -> (r: String)
    ensures
        r@ == spec_normalize_name(s@),
{
    let n = s.unicode_len();
    let mut v: Vec<char> = Vec::new();
    let mut i: usize = 0;
    while i < n
        invariant
            n == s@.len(),
            i <= n,
            v@ == s@.subrange(0, i as int).map_values(|c: char| spec_lower_char(c)),
        decreases n - i,
    {
        v.push(lower_char(s.get_char(i)));
        proof {
            assert(v@ =~= s@.subrange(0, i + 1).map_values(|c: char| spec_lower_char(c)));
        }
        i += 1;
    }
    proof {
        assert(s@.subrange(0, n as int) =~= s@);
    }
    let ghost lowered = s@.map_values(|c: char| spec_lower_char(c));
    while v.len() > 0 && v[0] == ' '
        invariant
            spec_trim_spaces(v@) == spec_trim_spaces(lowered),
        decreases v@.len(),
    {
        let ghost vprev = v@;
        v.remove(0);
        proof {
            assert(v@ =~= vprev.drop_first());
        }
    }
    while v.len() > 0 && v[v.len() - 1] == ' '
        invariant
            spec_trim_spaces(v@) == spec_trim_spaces(lowered),
            v@.len() > 0 ==> v@[0] != ' ',
        decreases v@.len(),
    {
        v.pop();
    }
    proof {
        assert(spec_trim_spaces(v@) == v@);
    }
    let mut out = String::new();
    let mut i: usize = 0;
    while i < v.len()
        invariant
            i <= v@.len(),
            spec_trim_spaces(v@) == spec_trim_spaces(lowered),
            out@ == v@.subrange(0, i as int).map_values(|c: char| spec_hyphen_char(c)),
        decreases v@.len() - i,
    {
        let c = v[i];
        if c == ' ' {
            push_char(&mut out, '-');
        } else {
            push_char(&mut out, c);
        }
        proof {
            assert(out@ =~= v@.subrange(0, i + 1).map_values(|c: char| spec_hyphen_char(c)));
        }
        i += 1;
    }
    proof {
        assert(v@.subrange(0, v@.len() as int) =~= v@);
        assert(out@ == spec_trim_spaces(lowered).map_values(|c: char| spec_hyphen_char(c)));
    }
    out
}

/// The decimal digit character of a value below ten.
pub open spec fn spec_digit(d: nat) -> char {
    if d == 0 {
        '0'
    } else if d == 1 {
        '1'
    } else if d == 2 {
        '2'
    } else if d == 3 {
        '3'
    } else if d == 4 {
        '4'
    } else if d == 5 {
        '5'
    } else if d == 6 {
        '6'
    } else if d == 7 {
        '7'
    } else if d == 8 {
        '8'
    } else {
        '9'
    }
}

/// The decimal form of a number.
pub open spec fn spec_decimal(n: nat) -> Seq<char>
    decreases n,
{
    if n < 10 {
        seq![spec_digit(n)]
    } else {
        spec_decimal(n / 10).push(spec_digit(n % 10))
    }
}

proof fn lemma_decimal_len(n: nat)
    ensures
        spec_decimal(n).len() >= 1,
    decreases n,
{
    if n >= 10 {
        lemma_decimal_len(n / 10);
    }
}

/// Distinct numbers have distinct decimal forms.
proof fn lemma_decimal_injective(a: nat, b: nat)
    requires
        spec_decimal(a) == spec_decimal(b),
    ensures
        a == b,
    decreases a + b,
{
    lemma_decimal_len(a);
    lemma_decimal_len(b);
    if a < 10 && b < 10 {
        assert(spec_decimal(a)[0] == spec_digit(a));
        assert(spec_decimal(b)[0] == spec_digit(b));
    } else if a < 10 {
        lemma_decimal_len(b / 10);
        assert(spec_decimal(b).len() >= 2);
    } else if b < 10 {
        lemma_decimal_len(a / 10);
        assert(spec_decimal(a).len() >= 2);
    } else {
        assert(spec_decimal(a).last() == spec_digit(a % 10));
        assert(spec_decimal(b).last() == spec_digit(b % 10));
        assert(a % 10 == b % 10);
        assert(spec_decimal(a).drop_last() =~= spec_decimal(a / 10));
        assert(spec_decimal(b).drop_last() =~= spec_decimal(b / 10));
        lemma_decimal_injective(a / 10, b / 10);
        lemma_fundamental_div_mod(a as int, 10);
        lemma_fundamental_div_mod(b as int, 10);
    }
}

fn digit_char(d: u128) -> (r: char)
    requires
        d < 10,
    ensures
        r == spec_digit(d as nat),
{
    if d == 0 {
        '0'
    } else if d == 1 {
        '1'
    } else if d == 2 {
        '2'
    } else if d == 3 {
        '3'
    } else if d == 4 {
        '4'
    } else if d == 5 {
        '5'
    } else if d == 6 {
        '6'
    } else if d == 7 {
        '7'
    } else if d == 8 {
        '8'
    } else {
        '9'
    }
}

/// Writes a number in decimal.
pub(crate) fn decimal_string(n: u128) -> (s: String)
    ensures
        s@ == spec_decimal(n as nat),
    decreases n,
{
    if n < 10 {
        let mut s = String::new();
        push_char(&mut s, digit_char(n));
        proof {
            assert(s@ =~= spec_decimal(n as nat));
        }
        s
    } else {
        let mut s = decimal_string(n / 10);
        push_char(&mut s, digit_char(n % 10));
        s
    }
}

/// The `k`-th candidate name for a base name: the base itself, then
/// the base with `-1`, `-2`, ... appended.
pub open spec fn cand_spec(base: Seq<char>, k: nat) -> Seq<char> {
    if k == 0 {
        base
    } else {
        base + seq!['-'] + spec_decimal(k)
    }
}

/// Distinct candidate indices give distinct names.
proof fn lemma_cand_injective(base: Seq<char>, k1: nat, k2: nat)
    requires
        cand_spec(base, k1) == cand_spec(base, k2),
    ensures
        k1 == k2,
{
    lemma_decimal_len(k1);
    lemma_decimal_len(k2);
    if k1 == 0 && k2 != 0 {
        assert(cand_spec(base, k2).len() > base.len());
    } else if k1 != 0 && k2 == 0 {
        assert(cand_spec(base, k1).len() > base.len());
    } else if k1 != 0 && k2 != 0 {
        let s1 = cand_spec(base, k1);
        let s2 = cand_spec(base, k2);
        assert(spec_decimal(k1) =~= s1.subrange(base.len() as int + 1, s1.len() as int));
        assert(spec_decimal(k2) =~= s2.subrange(base.len() as int + 1, s2.len() as int));
        lemma_decimal_injective(k1, k2);
    }
}

// ---------------------------------------------------------------------------
// The generator.
// ---------------------------------------------------------------------------

/// Builds a palette from a stream of literal colors, deduplicating
/// them and assigning each RGB triple a stable descriptive name.
#[derive(Debug)]
pub struct PaletteGenerator {
    pub rgb_to_name: Vec<([u8; 3], String)>,
}

/// The mapping denoted by a triple/name entry list.
pub open spec fn rgb_entries_map(s: Seq<([u8; 3], String)>) -> Map<Seq<u8>, Seq<char>>
    decreases s.len(),
{
    if s.len() == 0 {
        Map::empty()
    } else {
        rgb_entries_map(s.drop_last()).insert(s.last().0@, s.last().1@)
    }
}

pub proof fn lemma_rgb_entries_map_dom(s: Seq<([u8; 3], String)>)
    ensures
        rgb_entries_map(s).dom().finite(),
        forall|n: Seq<u8>| #[trigger]
            rgb_entries_map(s).dom().contains(n) <==> (exists|i: int|
                0 <= i < s.len() && s[i].0@ == n),
    decreases s.len(),
{
    if s.len() > 0 {
        lemma_rgb_entries_map_dom(s.drop_last());
        assert forall|n: Seq<u8>| #[trigger] rgb_entries_map(s).dom().contains(n) implies (exists|
            i: int,
        |
            0 <= i < s.len() && s[i].0@ == n) by {
            if n == s.last().0@ {
                assert(s[s.len() - 1].0@ == n);
            } else {
                let i = choose|i: int| 0 <= i < s.len() - 1 && s.drop_last()[i].0@ == n;
                assert(s[i].0@ == n);
            }
        }
        assert forall|n: Seq<u8>|
            (exists|i: int| 0 <= i < s.len() && s[i].0@ == n) implies #[trigger] rgb_entries_map(
            s,
        ).dom().contains(n) by {
            let i = choose|i: int| 0 <= i < s.len() && s[i].0@ == n;
            if i < s.len() - 1 {
                assert(s.drop_last()[i].0@ == n);
            }
        }
    }
}

pub proof fn lemma_rgb_entries_map_value(s: Seq<([u8; 3], String)>, i: int)
    requires
        0 <= i < s.len(),
        forall|j: int| i < j < s.len() ==> s[j].0@ != s[i].0@,
    ensures
        rgb_entries_map(s).dom().contains(s[i].0@),
        rgb_entries_map(s)[s[i].0@] == s[i].1@,
    decreases s.len(),
{
    if i == s.len() - 1 {
    } else {
        assert(forall|j: int|
            i < j < s.drop_last().len() ==> s.drop_last()[j].0@ != s.drop_last()[i].0@);
        lemma_rgb_entries_map_value(s.drop_last(), i);
    }
}

/// Some entry already carries this name.
pub open spec fn name_in_use(s: Seq<([u8; 3], String)>, nm: Seq<char>) -> bool {
    exists|i: int| 0 <= i < s.len() && #[trigger] s[i].1@ == nm
}

impl View for PaletteGenerator {
    type V = Map<Seq<u8>, Seq<char>>;

    open spec fn view(&self) -> Map<Seq<u8>, Seq<char>> {
        rgb_entries_map(self.rgb_to_name@)
    }
}

fn rgb_eq(a: &[u8; 3], b: &[u8; 3]) -> (r: bool)
    ensures
        r == (a@ == b@),
{
    broadcast use vstd::array::group_array_axioms;

    let r = a[0] == b[0] && a[1] == b[1] && a[2] == b[2];
    proof {
        if r {
            assert(a@ =~= b@);
        }
    }
    r
}

fn find_by_rgb(s: &Vec<([u8; 3], String)>, rgb: &[u8; 3]) -> (r: Option<usize>)
    ensures
        match r {
            Some(i) => i < s@.len() && s@[i as int].0@ == rgb@,
            None => forall|i: int| 0 <= i < s@.len() ==> #[trigger] s@[i].0@ != rgb@,
        },
{
    let n = s.len();
    let mut k: usize = 0;
    while k < n
        invariant
            n == s@.len(),
            k <= n,
            forall|i: int| 0 <= i < k ==> #[trigger] s@[i].0@ != rgb@,
        decreases n - k,
    {
        if rgb_eq(&s[k].0, rgb) {
            return Some(k);
        }
        k += 1;
    }
    None
}

fn find_by_name(s: &Vec<([u8; 3], String)>, nm: &String) -> (r: Option<usize>)
    ensures
        match r {
            Some(i) => i < s@.len() && s@[i as int].1@ == nm@,
            None => forall|i: int| 0 <= i < s@.len() ==> #[trigger] s@[i].1@ != nm@,
        },
{
    let n = s.len();
    let mut k: usize = 0;
    while k < n
        invariant
            n == s@.len(),
            k <= n,
            forall|i: int| 0 <= i < k ==> #[trigger] s@[i].1@ != nm@,
        decreases n - k,
    {
        if s[k].1.eq(nm) {
            return Some(k);
        }
        k += 1;
    }
    None
}

/// The fixed-point alpha factor that reproduces an 8-bit alpha channel.
pub open spec fn spec_alpha_to_modifier(alpha: u8) -> u32 {
    (alpha as u32 * (MOD_ONE / 255)) as u32
}

pub fn alpha_to_modifier(alpha: u8) -> (r: u32)
    ensures
        r == spec_alpha_to_modifier(alpha),
{
    proof {
        assert(MOD_ONE / 255 == 1000);
    }
    (alpha as u32) * 1000
}

/// What looking a color up in the generator yields: a reference to the
/// triple's name with an alpha modifier when alpha is not fully
/// opaque, or the literal color itself when the triple is unnamed.
pub open spec fn spec_gen_lookup(g: Map<Seq<u8>, Seq<char>>, c: HexColor) -> ColorView {
    let rgb = seq![c.0[0], c.0[1], c.0[2]];
    if g.dom().contains(rgb) {
        ColorView {
            base: crate::color::BaseKind::Reference(g[rgb]),
            modifiers: ColorModifiers {
                alpha: if c.0[3] == 255 {
                    None
                } else {
                    Some(spec_alpha_to_modifier(c.0[3]))
                },
                lighten: None,
                darken: None,
                saturate: None,
                desaturate: None,
                hue_shift: None,
            },
        }
    } else {
        ColorView {
            base: crate::color::BaseKind::Literal(c),
            modifiers: ColorModifiers::spec_empty(),
        }
    }
}

impl PaletteGenerator {
    /// Both directions of the mapping are injective: triples are
    /// unique, and so are names.
    pub open spec fn wf(&self) -> bool {
        &&& forall|i: int, j: int|
            0 <= i < j < self.rgb_to_name@.len() ==> self.rgb_to_name@[i].0@
                != self.rgb_to_name@[j].0@
        &&& forall|i: int, j: int|
            0 <= i < j < self.rgb_to_name@.len() ==> self.rgb_to_name@[i].1@
                != self.rgb_to_name@[j].1@
    }

    pub fn new() -> (r: PaletteGenerator)
        ensures
            r.wf(),
            r@ == Map::<Seq<u8>, Seq<char>>::empty(),
            r.rgb_to_name@.len() == 0,
    {
        PaletteGenerator { rgb_to_name: Vec::new() }
    }

    /// Feeds one color in. A triple already named is left untouched;
    /// a new triple is given a descriptive name no other triple holds,
    /// the plain normalized name when it is free, a numbered variant
    /// of it otherwise.
    pub fn feed(&mut self, color: HexColor)
        requires
            old(self).wf(),
        ensures
            final(self).wf(),
            ({
                let rgb = seq![color.0[0], color.0[1], color.0[2]];
                let base = spec_normalize_name(
                    raw_color_name(color.0[0], color.0[1], color.0[2]),
                );
                if old(self)@.dom().contains(rgb) {
                    final(self).rgb_to_name@ == old(self).rgb_to_name@
                } else {
                    &&& final(self)@ == old(self)@.insert(rgb, final(self)@[rgb])
                    &&& !name_in_use(old(self).rgb_to_name@, final(self)@[rgb])
                    &&& exists|k: nat|
                        final(self)@[rgb] == cand_spec(base, k) && (forall|j: nat|
                            j < k ==> name_in_use(old(self).rgb_to_name@, #[trigger] cand_spec(base, j)))
                    &&& (!name_in_use(old(self).rgb_to_name@, base) ==> final(self)@[rgb] == base)
                }
            }),
    {
        broadcast use vstd::set::group_set_axioms;
        broadcast use vstd::array::group_array_axioms;

        let rgb: [u8; 3] = [color.0[0], color.0[1], color.0[2]];
        proof {
            assert(rgb@ =~= seq![color.0[0], color.0[1], color.0[2]]);
            lemma_rgb_entries_map_dom(self.rgb_to_name@);
        }
        if find_by_rgb(&self.rgb_to_name, &rgb).is_some() {
            return ;
        }
        let base = normalize_name(name_for_rgb(color.0[0], color.0[1], color.0[2]).as_str());
        let mut candidate = base.clone();
        let mut idx: u128 = 1;
        let cap = self.rgb_to_name.len();
        let ghost mut used: Seq<int> = Seq::empty();
        proof {
            assert(candidate@ == cand_spec(base@, 0));
        }
        loop
            invariant
                self.wf(),
                cap == self.rgb_to_name@.len(),
                1 <= idx,
                used.len() == idx - 1,
                idx - 1 <= self.rgb_to_name@.len(),
                candidate@ == cand_spec(base@, (idx - 1) as nat),
                idx > 1 ==> name_in_use(self.rgb_to_name@, base@),
                forall|t: int|
                    0 <= t < used.len() ==> 0 <= #[trigger] used[t] < self.rgb_to_name@.len(),
                forall|t: int|
                    0 <= t < used.len() ==> self.rgb_to_name@[#[trigger] used[t]].1@ == cand_spec(
                        base@,
                        t as nat,
                    ),
                forall|t1: int, t2: int| 0 <= t1 < t2 < used.len() ==> used[t1] != used[t2],
                forall|t: nat|
                    t < idx - 1 ==> name_in_use(self.rgb_to_name@, #[trigger] cand_spec(base@, t)),
            ensures
                !name_in_use(self.rgb_to_name@, candidate@),
                candidate@ == cand_spec(base@, (idx - 1) as nat),
                idx > 1 ==> name_in_use(self.rgb_to_name@, base@),
                forall|t: nat|
                    t < idx - 1 ==> name_in_use(self.rgb_to_name@, #[trigger] cand_spec(base@, t)),
                1 <= idx,
                self.wf(),
            decreases self.rgb_to_name@.len() + 1 - (idx - 1),
        {
            match find_by_name(&self.rgb_to_name, &candidate) {
                None => {
                    break ;
                },
                Some(j) => {
                    proof {
                        assert forall|t: int| 0 <= t < used.len() implies used[t] != j by {
                            if used[t] == j {
                                lemma_cand_injective(base@, t as nat, (idx - 1) as nat);
                            }
                        }
                        used = used.push(j as int);
                        assert forall|t: int| 0 <= t < used.len() implies self.rgb_to_name@[
                            #[trigger] used[t]
                        ].1@ == cand_spec(base@, t as nat) by {
                            if t < used.len() - 1 {
                                assert(used[t] == used.drop_last()[t]);
                            }
                        }
                        lemma_used_card(used, self.rgb_to_name@.len() as int);
                        if idx == 1 {
                            assert(self.rgb_to_name@[j as int].1@ == base@);
                            assert(name_in_use(self.rgb_to_name@, base@));
                        }
                        assert forall|t: nat| t < idx implies name_in_use(
                            self.rgb_to_name@,
                            #[trigger] cand_spec(base@, t),
                        ) by {
                            if t == idx - 1 {
                                assert(self.rgb_to_name@[j as int].1@ == cand_spec(
                                    base@,
                                    (idx - 1) as nat,
                                ));
                            }
                        }
                    }
                    let dec = decimal_string(idx);
                    let mut c2 = base.clone();
                    c2.append("-");
                    c2.append(dec.as_str());
                    proof {
                        reveal_strlit("-");
                        assert(c2@ =~= base@ + seq!['-'] + spec_decimal(idx as nat));
                    }
                    candidate = c2;
                    idx = idx + 1;
                },
            }
        }
        proof {
            assert(!name_in_use(self.rgb_to_name@, candidate@));
        }
        let ghost before = self.rgb_to_name@;
        let ghost chosen = candidate@;
        let ghost kidx = (idx - 1) as nat;
        self.rgb_to_name.push((rgb, candidate));
        proof {
            let s = self.rgb_to_name@;
            assert(s.drop_last() =~= before);
            assert forall|i: int, j: int| 0 <= i < j < s.len() implies s[i].0@ != s[j].0@ by {
                if j == s.len() - 1 {
                    assert(s[i] == before[i]);
                } else {
                    assert(s[i] == before[i]);
                    assert(s[j] == before[j]);
                }
            }
            assert forall|i: int, j: int| 0 <= i < j < s.len() implies s[i].1@ != s[j].1@ by {
                if j == s.len() - 1 {
                    assert(s[i] == before[i]);
                } else {
                    assert(s[i] == before[i]);
                    assert(s[j] == before[j]);
                }
            }
            lemma_rgb_entries_map_dom(before);
            assert(final(self)@ == rgb_entries_map(before).insert(rgb@, chosen));
            lemma_rgb_entries_map_value(s, s.len() - 1);
            assert(final(self)@[rgb@] == chosen);
            assert(exists|k: nat|
                final(self)@[rgb@] == cand_spec(base@, k) && (forall|j: nat|
                    j < k ==> name_in_use(before, #[trigger] cand_spec(base@, j)))) by {
                assert(final(self)@[rgb@] == cand_spec(base@, kidx));
                assert(forall|j: nat| j < kidx ==> name_in_use(before, #[trigger] cand_spec(base@, j)));
            }
        }
    }

    /// Translates one literal color back to the compact form: a named
    /// reference with an alpha modifier where the triple is known, the
    /// literal color itself otherwise.
    pub fn lookup(&self, color: HexColor) -> (r: Color)
        requires
            self.wf(),
        ensures
            r@ == spec_gen_lookup(self@, color),
    {
        broadcast use vstd::array::group_array_axioms;

        let rgb: [u8; 3] = [color.0[0], color.0[1], color.0[2]];
        proof {
            assert(rgb@ =~= seq![color.0[0], color.0[1], color.0[2]]);
            lemma_rgb_entries_map_dom(self.rgb_to_name@);
        }
        match find_by_rgb(&self.rgb_to_name, &rgb) {
            Some(i) => {
                proof {
                    lemma_rgb_entries_map_value(self.rgb_to_name@, i as int);
                }
                let name = self.rgb_to_name[i].1.clone();
                let alpha = color.0[3];
                let modifiers = ColorModifiers {
                    alpha: if alpha != 255 {
                        Some(alpha_to_modifier(alpha))
                    } else {
                        None
                    },
                    lighten: None,
                    darken: None,
                    saturate: None,
                    desaturate: None,
                    hue_shift: None,
                };
                Color { base: BaseColorKind::PaletteReference(name), modifiers }
            },
            None => {
                Color { base: BaseColorKind::Hex(color), modifiers: ColorModifiers::empty() }
            },
        }
    }

    /// Emits the final name-to-opaque-color table: exactly one entry
    /// per named triple, each fully opaque. The table keeps feeding
    /// order here; the sorted-by-name authored form is produced by
    /// `ResolvedPalette::into_raw_palette`, which the generation
    /// pipeline applies to this table before anything is emitted.
    pub fn into_resolved_palette(self) -> (r: ResolvedPalette)
        requires
            self.wf(),
        ensures
            r.wf(),
            gen_table_of(self@, r@),
            r.colors@.len() == self.rgb_to_name@.len(),
            forall|n: Seq<char>| #[trigger]
                r@.dom().contains(n) ==> exists|rgb: Seq<u8>|
                    #[trigger] self@.dom().contains(rgb) && self@[rgb] == n,
    {
        let mut colors: Vec<(String, HexColor)> = Vec::new();
        let n = self.rgb_to_name.len();
        let mut i: usize = 0;
        while i < n
            invariant
                self.wf(),
                n == self.rgb_to_name@.len(),
                i <= n,
                colors@.len() == i,
                forall|j: int|
                    0 <= j < i ==> #[trigger] colors@[j].0@ == self.rgb_to_name@[j].1@
                        && colors@[j].1.0@ == self.rgb_to_name@[j].0@.push(255u8),
            decreases n - i,
        {
            let e = &self.rgb_to_name[i];
            let hex = HexColor([e.0[0], e.0[1], e.0[2], 255]);
            proof {
                broadcast use vstd::array::group_array_axioms;

                assert(hex.0@ =~= e.0@.push(255u8));
            }
            colors.push((e.1.clone(), hex));
            i += 1;
        }
        let r = ResolvedPalette { colors };
        proof {
            assert forall|i2: int, j2: int| 0 <= i2 < j2 < r.colors@.len() implies r.colors@[i2].0@
                != r.colors@[j2].0@ by {
                assert(self.rgb_to_name@[i2].1@ != self.rgb_to_name@[j2].1@);
            }
            lemma_rgb_entries_map_dom(self.rgb_to_name@);
            assert forall|rgb: Seq<u8>| #[trigger] self@.dom().contains(rgb) implies r@.dom().contains(
                self@[rgb],
            ) && r@[self@[rgb]].0@ == rgb.push(255u8) by {
                let i3 = choose|i3: int|
                    0 <= i3 < self.rgb_to_name@.len() && #[trigger] self.rgb_to_name@[i3].0@ == rgb;
                lemma_rgb_entries_map_value(self.rgb_to_name@, i3);
                assert(r.colors@[i3].0@ == self@[rgb]);
                assert forall|j3: int| i3 < j3 < r.colors@.len() implies r.colors@[j3].0@
                    != r.colors@[i3].0@ by {
                    assert(self.rgb_to_name@[i3].1@ != self.rgb_to_name@[j3].1@);
                }
                lemma_hex_entries_map_value(r.colors@, i3);
            }
            lemma_hex_entries_map_dom(r.colors@);
            assert forall|nm: Seq<char>| #[trigger] r@.dom().contains(nm) implies exists|
                rgb: Seq<u8>,
            |
                #[trigger] self@.dom().contains(rgb) && self@[rgb] == nm by {
                let i4 = choose|i4: int| 0 <= i4 < r.colors@.len() && #[trigger] r.colors@[i4].0@ == nm;
                let rgb = self.rgb_to_name@[i4].0@;
                assert(self.rgb_to_name@[i4].0@ == rgb);
                assert forall|j4: int| i4 < j4 < self.rgb_to_name@.len() implies self.rgb_to_name@[
                    j4
                ].0@ != self.rgb_to_name@[i4].0@ by {}
                lemma_rgb_entries_map_value(self.rgb_to_name@, i4);
                assert(self@.dom().contains(rgb) && self@[rgb] == nm);
            }
        }
        r
    }
}

impl Default for PaletteGenerator {
    fn default() -> (r: Self)
        ensures
            r.wf(),
            r@ == Map::<Seq<u8>, Seq<char>>::empty(),
            r.rgb_to_name@.len() == 0,
    {
        PaletteGenerator::new()
    }
}

/// The resolved table contains, under each assigned name, the fully
/// opaque color of the triple that owns the name.
pub open spec fn gen_table_of(g: Map<Seq<u8>, Seq<char>>, rm: Map<Seq<char>, HexColor>) -> bool {
    forall|rgb: Seq<u8>| #[trigger]
        g.dom().contains(rgb) ==> rm.dom().contains(g[rgb]) && rm[g[rgb]].0@ == rgb.push(255u8)
}

proof fn lemma_used_card(used: Seq<int>, n: int)
    requires
        n >= 0,
        forall|t: int| 0 <= t < used.len() ==> 0 <= #[trigger] used[t] < n,
        forall|t1: int, t2: int| 0 <= t1 < t2 < used.len() ==> used[t1] != used[t2],
    ensures
        used.len() <= n,
{
    broadcast use vstd::set::group_set_axioms;
    broadcast use vstd::seq_lib::group_seq_lib_default;

    used.unique_seq_to_set();
    assert forall|q: int| used.to_set().contains(q) implies vstd::set_lib::set_int_range(
        0,
        n,
    ).contains(q) by {
        let t = choose|t: int| 0 <= t < used.len() && used[t] == q;
    }
    vstd::set_lib::lemma_int_range(0, n);
    lemma_len_subset(used.to_set(), vstd::set_lib::set_int_range(0, n));
}

/// The compact form the generator emits loses no color: looking the
/// emitted reference (or literal) up against the generator's own
/// resolved table gives back exactly the color that was translated,
/// alpha channel included.
pub proof fn lemma_lookup_roundtrip(
    g: Map<Seq<u8>, Seq<char>>,
    rm: Map<Seq<char>, HexColor>,
    c: HexColor,
)
    requires
        gen_table_of(g, rm),
    ensures
        crate::palette::spec_lookup(rm, spec_gen_lookup(g, c)) == Some(c),
{
    broadcast use vstd::array::group_array_axioms;

    let rgb = seq![c.0[0], c.0[1], c.0[2]];
    if g.dom().contains(rgb) {
        let name = g[rgb];
        let h = rm[name];
        assert(h.0@ == rgb.push(255u8));
        assert(h.0[0] == c.0[0] && h.0[1] == c.0[1] && h.0[2] == c.0[2] && h.0[3] == 255u8) by {
            assert(h.0@[0] == rgb[0] && h.0@[1] == rgb[1] && h.0@[2] == rgb[2] && h.0@[3] == 255u8);
        }
        let a = c.0[3];
        if a == 255 {
            let res = crate::color::spec_apply_modifiers(h, ColorModifiers::spec_empty());
            assert(res.0 =~= c.0);
        } else {
            let mods = spec_gen_lookup(g, c).modifiers;
            let res = crate::color::spec_apply_modifiers(h, mods);
            assert(crate::color::sp_scale_alpha(255, a as int * 1000) == a as int) by {
                lemma_div_multiples_vanish(a as int, 255000);
                assert(255 * (a as int * 1000) == 255000 * (a as int));
            }
            assert(res.0 =~= c.0);
        }
    } else {
        let res = crate::color::spec_apply_modifiers(c, ColorModifiers::spec_empty());
        assert(res.0 =~= c.0);
    }
}

/// Naming is injective: two distinct RGB triples never share a name.
pub proof fn lemma_naming_injective(g: &PaletteGenerator, r1: Seq<u8>, r2: Seq<u8>)
    requires
        g.wf(),
        g@.dom().contains(r1),
        g@.dom().contains(r2),
        r1 != r2,
    ensures
        g@[r1] != g@[r2],
{
    lemma_rgb_entries_map_dom(g.rgb_to_name@);
    let i1 = choose|i: int| 0 <= i < g.rgb_to_name@.len() && #[trigger] g.rgb_to_name@[i].0@ == r1;
    let i2 = choose|i: int| 0 <= i < g.rgb_to_name@.len() && #[trigger] g.rgb_to_name@[i].0@ == r2;
    lemma_rgb_entries_map_value(g.rgb_to_name@, i1);
    lemma_rgb_entries_map_value(g.rgb_to_name@, i2);
}

} // verus!
