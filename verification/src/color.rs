//! Literal RGBA colors, hex text form, and perceptual-space modifiers.
use vstd::prelude::*;

verus! {

/// Fixed-point unit for modifier values: a factor of 1.0 is stored as
/// `MOD_ONE`. The unit is divisible by 255, so an alpha factor derived from
/// an 8-bit alpha channel is represented exactly.
pub const MOD_ONE: u32 = 255000;

/// A literal 4-channel color; channels are `[r, g, b, a]`.
#[derive(Debug, Clone, Copy, PartialEq, Eq, Hash)]
pub struct HexColor(pub [u8; 4]);

/// Optional perceptual adjustments applied to a base color.
///
/// Factor fields (`alpha`, `lighten`, `darken`, `saturate`, `desaturate`)
/// are fixed-point with unit [`MOD_ONE`]; `hue_shift` is in degrees, also
/// fixed-point with unit [`MOD_ONE`]. Absent means "no adjustment".
#[derive(Debug, Clone, Copy, PartialEq, Eq, Hash)]
pub struct ColorModifiers {
    pub alpha: Option<u32>,
    pub lighten: Option<u32>,
    pub darken: Option<u32>,
    pub saturate: Option<u32>,
    pub desaturate: Option<u32>,
    pub hue_shift: Option<i64>,
}

impl ColorModifiers {
    /// No adjustment at all.
    pub open spec fn spec_empty() -> ColorModifiers {
        ColorModifiers {
            alpha: None,
            lighten: None,
            darken: None,
            saturate: None,
            desaturate: None,
            hue_shift: None,
        }
    }

    pub fn empty() -> (r: ColorModifiers)
        ensures
            r == ColorModifiers::spec_empty(),
    {
        ColorModifiers {
            alpha: None,
            lighten: None,
            darken: None,
            saturate: None,
            desaturate: None,
            hue_shift: None,
        }
    }

    pub open spec fn spec_is_empty(self) -> bool {
        self == ColorModifiers::spec_empty()
    }

    pub fn is_empty(&self) -> (r: bool)
        ensures
            r == self.spec_is_empty(),
    {
        let r = self.alpha.is_none() && self.lighten.is_none() && self.darken.is_none()
            && self.saturate.is_none() && self.desaturate.is_none() && self.hue_shift.is_none();
        if r {
            assert(*self == ColorModifiers::spec_empty());
        }
        r
    }
}

impl Default for ColorModifiers {
    fn default() -> (r: Self)
        ensures
            r == ColorModifiers::spec_empty(),
    {
        ColorModifiers::empty()
    }
}

/// The base of a color entry: either a literal color or the name of
/// another palette entry.
#[derive(Debug, Clone, PartialEq, Eq, Hash)]
pub enum BaseColorKind {
    PaletteReference(String),
    Hex(HexColor),
}

/// Mathematical model of [`BaseColorKind`]: names are character sequences.
#[verifier::ext_equal]
pub enum BaseKind {
    Reference(Seq<char>),
    Literal(HexColor),
}

impl View for BaseColorKind {
    type V = BaseKind;

    open spec fn view(&self) -> BaseKind {
        match self {
            BaseColorKind::PaletteReference(name) => BaseKind::Reference(name@),
            BaseColorKind::Hex(h) => BaseKind::Literal(*h),
        }
    }
}

/// A color as it appears wherever a color can be written: a base plus
/// its own modifiers.
#[derive(Debug, Clone, PartialEq)]
pub struct Color {
    pub base: BaseColorKind,
    pub modifiers: ColorModifiers,
}

/// Mathematical model of [`Color`].
#[verifier::ext_equal]
pub struct ColorView {
    pub base: BaseKind,
    pub modifiers: ColorModifiers,
}

impl View for Color {
    type V = ColorView;

    open spec fn view(&self) -> ColorView {
        ColorView { base: self.base@, modifiers: self.modifiers }
    }
}

impl Color {
    /// A literal color with no adjustments.
    pub fn from_hex(h: HexColor) -> (r: Color)
        ensures
            r@ == (ColorView {
                base: BaseKind::Literal(h),
                modifiers: ColorModifiers::spec_empty(),
            }),
    {
        Color { base: BaseColorKind::Hex(h), modifiers: ColorModifiers::empty() }
    }
}

/// Structural equality of two base colors.
pub fn base_eq(a: &BaseColorKind, b: &BaseColorKind) -> (r: bool)
    ensures
        r == (a@ == b@),
{
    match (a, b) {
        (BaseColorKind::Hex(x), BaseColorKind::Hex(y)) => hex_eq(x, y),
        (BaseColorKind::PaletteReference(x), BaseColorKind::PaletteReference(y)) => x.eq(y),
        _ => false,
    }
}

/// Structural equality of two literal colors.
pub fn hex_eq(a: &HexColor, b: &HexColor) -> (r: bool)
    ensures
        r == (a == b),
{
    broadcast use vstd::array::group_array_axioms;

    let r = a.0[0] == b.0[0] && a.0[1] == b.0[1] && a.0[2] == b.0[2] && a.0[3] == b.0[3];
    proof {
        if r {
            assert(a.0 =~= b.0);
        } else {
            assert(a.0@ != b.0@);
        }
    }
    r
}

/// Equality of two modifier records, field for field.
pub fn modifiers_eq(a: &ColorModifiers, b: &ColorModifiers) -> (r: bool)
    ensures
        r == (a == b),
{
    let r = opt_u32_eq(&a.alpha, &b.alpha) && opt_u32_eq(&a.lighten, &b.lighten) && opt_u32_eq(
        &a.darken,
        &b.darken,
    ) && opt_u32_eq(&a.saturate, &b.saturate) && opt_u32_eq(&a.desaturate, &b.desaturate)
        && opt_i64_eq(&a.hue_shift, &b.hue_shift);
    proof {
        if r {
            assert(*a =~= *b);
        }
    }
    r
}

fn opt_u32_eq(a: &Option<u32>, b: &Option<u32>) -> (r: bool)
    ensures
        r == (a == b),
{
    match (a, b) {
        (Some(x), Some(y)) => x == y,
        (None, None) => true,
        _ => false,
    }
}

fn opt_i64_eq(a: &Option<i64>, b: &Option<i64>) -> (r: bool)
    ensures
        r == (a == b),
{
    match (a, b) {
        (Some(x), Some(y)) => x == y,
        (None, None) => true,
        _ => false,
    }
}

/// Structural equality of two colors: same base and same modifiers.
pub fn color_eq(a: &Color, b: &Color) -> (r: bool)
    ensures
        r == (a@ == b@),
{
    let r = base_eq(&a.base, &b.base) && modifiers_eq(&a.modifiers, &b.modifiers);
    proof {
        if r {
            assert(a@ =~= b@);
        }
    }
    r
}

/// The value of one hex digit character, case-insensitive.
pub open spec fn spec_hex_digit(c: char) -> Option<u8> {
    let u = c as u32;
    if 48 <= u <= 57 {
        Some((u - 48) as u8)
    } else if 97 <= u <= 102 {
        Some((u - 97 + 10) as u8)
    } else if 65 <= u <= 70 {
        Some((u - 65 + 10) as u8)
    } else {
        None
    }
}

fn hex_digit(c: char) -> (r: Option<u8>)
    ensures
        r == spec_hex_digit(c),
{
    let u = c as u32;
    if 48 <= u && u <= 57 {
        Some((u - 48) as u8)
    } else if 97 <= u && u <= 102 {
        Some((u - 97 + 10) as u8)
    } else if 65 <= u && u <= 70 {
        Some((u - 65 + 10) as u8)
    } else {
        None
    }
}

/// The byte encoded by two hex digit characters, if both are valid.
pub open spec fn spec_hex_byte(hi: char, lo: char) -> Option<u8> {
    match (spec_hex_digit(hi), spec_hex_digit(lo)) {
        (Some(h), Some(l)) => Some((h * 16 + l) as u8),
        _ => None,
    }
}

/// The color denoted by a hex literal `#rrggbb` or `#rrggbbaa`,
/// case-insensitive; a six-digit form has alpha `0xff`.
pub open spec fn spec_parse_hex_color(s: Seq<char>) -> Option<HexColor> {
    if s.len() != 7 && s.len() != 9 {
        None
    } else if s[0] != '#' {
        None
    } else {
        let a = if s.len() == 9 {
            spec_hex_byte(s[7], s[8])
        } else {
            Some(255u8)
        };
        match (spec_hex_byte(s[1], s[2]), spec_hex_byte(s[3], s[4]), spec_hex_byte(s[5], s[6]), a) {
            (Some(r), Some(g), Some(b), Some(a)) => Some(HexColor([r, g, b, a])),
            _ => None,
        }
    }
}

/// Parses a hex color of the form `#rrggbb` or `#rrggbbaa`.
/// Letters are case-insensitive. Returns `None` on invalid inputs.
pub fn parse_hex_color(input: &str) -> (r: Option<HexColor>)
    ensures
        r == spec_parse_hex_color(input@),
{
    let n = input.unicode_len();
    if n != 7 && n != 9 {
        return None;
    }
    if input.get_char(0) != '#' {
        return None;
    }
    let r = match (hex_digit(input.get_char(1)), hex_digit(input.get_char(2))) {
        (Some(h), Some(l)) => h * 16 + l,
        _ => { return None; },
    };
    let g = match (hex_digit(input.get_char(3)), hex_digit(input.get_char(4))) {
        (Some(h), Some(l)) => h * 16 + l,
        _ => { return None; },
    };
    let b = match (hex_digit(input.get_char(5)), hex_digit(input.get_char(6))) {
        (Some(h), Some(l)) => h * 16 + l,
        _ => { return None; },
    };
    let a = if n == 9 {
        match (hex_digit(input.get_char(7)), hex_digit(input.get_char(8))) {
            (Some(h), Some(l)) => h * 16 + l,
            _ => { return None; },
        }
    } else {
        255
    };
    Some(HexColor([r, g, b, a]))
}

/// The lowercase hex digit character for a value below 16.
pub open spec fn spec_hex_char(d: u8) -> char {
    if d < 10 {
        ((d + 48) as u8) as char
    } else {
        ((d + 87) as u8) as char
    }
}

fn hex_char(d: u8) -> (r: char)
    requires
        d < 16,
    ensures
        r == spec_hex_char(d),
{
    if d < 10 {
        (d + 48) as char
    } else {
        (d + 87) as char
    }
}

/// The canonical text form of a literal color: `#` followed by eight
/// lowercase hex digits.
pub open spec fn spec_hex_string(h: HexColor) -> Seq<char> {
    seq![
        '#',
        spec_hex_char((h.0[0] / 16) as u8),
        spec_hex_char((h.0[0] % 16) as u8),
        spec_hex_char((h.0[1] / 16) as u8),
        spec_hex_char((h.0[1] % 16) as u8),
        spec_hex_char((h.0[2] / 16) as u8),
        spec_hex_char((h.0[2] % 16) as u8),
        spec_hex_char((h.0[3] / 16) as u8),
        spec_hex_char((h.0[3] % 16) as u8),
    ]
}

impl HexColor {
    /// Writes this color as `#rrggbbaa`, lowercase.
    pub fn hex_string(&self) -> (r: String)
        ensures
            r@ == spec_hex_string(*self),
    {
        let mut s = String::new();
        push_char(&mut s, '#');
        let mut i: usize = 0;
        while i < 4
            invariant
                i <= 4,
                s@.len() == 1 + 2 * i,
                s@[0] == '#',
                forall|j: int|
                    0 <= j < i ==> s@[1 + 2 * j] == spec_hex_char((self.0[j] / 16) as u8)
                        && s@[2 + 2 * j] == spec_hex_char((self.0[j] % 16) as u8),
            decreases 4 - i,
        {
            let v = self.0[i];
            push_char(&mut s, hex_char(v / 16));
            push_char(&mut s, hex_char(v % 16));
            i += 1;
        }
        proof {
            assert(s@ =~= spec_hex_string(*self));
        }
        s
    }
}

/// Relies on `String::push`: appends exactly one character at the end.
#[verifier::external_body]
pub(crate) fn push_char(s: &mut String, c: char)
    ensures
        final(s)@ == old(s)@.push(c),
{
    s.push(c);
}

// ---------------------------------------------------------------------------
// Perceptual modifier arithmetic.
//
// A color is adjusted in a lightness / saturation / hue representation,
// computed in fixed-point integer arithmetic with unit `MOD_ONE`. The
// conversions floor; every step clamps into its valid range, so extreme
// modifier values saturate instead of overflowing. The alpha channel is
// independent of the three others and is scaled directly, so a modifier
// record that only scales alpha leaves the color channels untouched.
// ---------------------------------------------------------------------------

/// Fixed-point unit as a mathematical integer.
pub open spec fn unit() -> int {
    MOD_ONE as int
}

pub open spec fn sp_max3(a: int, b: int, c: int) -> int {
    if a >= b && a >= c {
        a
    } else if b >= c {
        b
    } else {
        c
    }
}

pub open spec fn sp_min3(a: int, b: int, c: int) -> int {
    if a <= b && a <= c {
        a
    } else if b <= c {
        b
    } else {
        c
    }
}

/// Lightness of an RGB triple, scaled into `[0, unit()]`.
pub open spec fn sp_lightness(r: int, g: int, b: int) -> int {
    (sp_max3(r, g, b) + sp_min3(r, g, b)) * 500
}

/// Saturation of an RGB triple, scaled into `[0, unit()]`.
pub open spec fn sp_saturation(r: int, g: int, b: int) -> int {
    let mx = sp_max3(r, g, b);
    let mn = sp_min3(r, g, b);
    let sum = mx + mn;
    let den = if sum <= 255 {
        sum
    } else {
        510 - sum
    };
    if den == 0 {
        0
    } else {
        let s = (mx - mn) * unit() / den;
        if s > unit() {
            unit()
        } else {
            s
        }
    }
}

/// Hue of an RGB triple in degrees, scaled into `[0, 360 * unit())`.
pub open spec fn sp_hue(r: int, g: int, b: int) -> int {
    let mx = sp_max3(r, g, b);
    let mn = sp_min3(r, g, b);
    let delta = mx - mn;
    let h = if delta == 0 {
        0
    } else if mx == r {
        if g >= b {
            60 * ((g - b) * unit()) / delta
        } else {
            let p = 60 * ((b - g) * unit()) / delta;
            if p == 0 {
                0
            } else {
                360 * unit() - p
            }
        }
    } else if mx == g {
        if b >= r {
            120 * unit() + 60 * ((b - r) * unit()) / delta
        } else {
            120 * unit() - 60 * ((r - b) * unit()) / delta
        }
    } else {
        if r >= g {
            240 * unit() + 60 * ((r - g) * unit()) / delta
        } else {
            240 * unit() - 60 * ((g - r) * unit()) / delta
        }
    };
    if h < 0 {
        0
    } else if h >= 360 * unit() {
        360 * unit() - 1
    } else {
        h
    }
}

/// Scales `v` toward zero by the factor `k`; both fixed-point.
pub open spec fn sp_toward_zero(v: int, k: int) -> int {
    if k >= unit() {
        0
    } else {
        let t = v * k / unit();
        if t > v {
            0
        } else {
            v - t
        }
    }
}

/// Scales `v` toward `unit()` by the factor `k`; both fixed-point.
pub open spec fn sp_toward_one(v: int, k: int) -> int {
    if k >= unit() {
        unit()
    } else {
        let t = (unit() - v) * k / unit();
        if t > unit() - v {
            unit()
        } else {
            v + t
        }
    }
}

/// Adds a (possibly negative) fixed-point degree offset to a hue,
/// wrapping into `[0, 360 * unit())`.
pub open spec fn sp_shift_hue(h: int, d: int) -> int {
    let p = 360 * unit();
    if d >= 0 {
        (h + d % p) % p
    } else {
        (h + (p - (-d) % p)) % p
    }
}

/// One output channel from the hue sector decomposition, in `[0, 255]`.
pub open spec fn sp_channel(v: int, m: int) -> int {
    let t = (v + m) * 255 / unit();
    if t > 255 {
        255
    } else {
        t
    }
}

/// Converts a lightness / saturation / hue triple back to an RGB triple.
pub open spec fn sp_rgb_of_hsl(l: int, s: int, h: int) -> (int, int, int) {
    let c0 = (unit() - abs_int(2 * l - unit())) * s / unit();
    let c = if c0 > unit() {
        unit()
    } else {
        c0
    };
    let hm = h % (120 * unit());
    let x0 = c * (60 * unit() - abs_int(hm - 60 * unit())) / (60 * unit());
    let x = if x0 > c {
        c
    } else {
        x0
    };
    let m = if c / 2 > l {
        0
    } else {
        l - c / 2
    };
    let sector0 = h / (60 * unit());
    let sector = if sector0 > 5 {
        5
    } else {
        sector0
    };
    let rgb1 = if sector == 0 {
        (c, x, 0)
    } else if sector == 1 {
        (x, c, 0)
    } else if sector == 2 {
        (0, c, x)
    } else if sector == 3 {
        (0, x, c)
    } else if sector == 4 {
        (x, 0, c)
    } else {
        (c, 0, x)
    };
    (sp_channel(rgb1.0, m), sp_channel(rgb1.1, m), sp_channel(rgb1.2, m))
}

pub open spec fn abs_int(x: int) -> int {
    if x < 0 {
        -x
    } else {
        x
    }
}

/// Applies the lightness / saturation / hue adjustments of a modifier
/// record, in the fixed order darken, lighten, desaturate, saturate,
/// hue-shift.
pub open spec fn sp_apply_hsl(l: int, s: int, h: int, m: ColorModifiers) -> (int, int, int) {
    let l1 = match m.darken {
        Some(k) => sp_toward_zero(l, k as int),
        None => l,
    };
    let l2 = match m.lighten {
        Some(k) => sp_toward_one(l1, k as int),
        None => l1,
    };
    let s1 = match m.desaturate {
        Some(k) => sp_toward_zero(s, k as int),
        None => s,
    };
    let s2 = match m.saturate {
        Some(k) => sp_toward_one(s1, k as int),
        None => s1,
    };
    let h1 = match m.hue_shift {
        Some(d) => sp_shift_hue(h, d as int),
        None => h,
    };
    (l2, s2, h1)
}

/// Whether a modifier record adjusts anything besides alpha.
pub open spec fn sp_has_hsl(m: ColorModifiers) -> bool {
    m.lighten is Some || m.darken is Some || m.saturate is Some || m.desaturate is Some
        || m.hue_shift is Some
}

/// The scaled alpha channel: `a * k / unit()`, capped at 255.
pub open spec fn sp_scale_alpha(a: int, k: int) -> int {
    let t = a * k / unit();
    if t > 255 {
        255
    } else {
        t
    }
}

/// The color produced by applying a modifier record: alpha is scaled
/// first, then the color channels pass through the lightness /
/// saturation / hue adjustments if any of those are present. Applying an
/// empty record is the identity.
pub open spec fn spec_apply_modifiers(color: HexColor, m: ColorModifiers) -> HexColor {
    let r = color.0[0] as int;
    let g = color.0[1] as int;
    let b = color.0[2] as int;
    let a = color.0[3] as int;
    let a2 = match m.alpha {
        Some(k) => sp_scale_alpha(a, k as int),
        None => a,
    };
    if !sp_has_hsl(m) {
        HexColor([color.0[0], color.0[1], color.0[2], a2 as u8])
    } else {
        let lsh = sp_apply_hsl(sp_lightness(r, g, b), sp_saturation(r, g, b), sp_hue(r, g, b), m);
        let rgb = sp_rgb_of_hsl(lsh.0, lsh.1, lsh.2);
        HexColor([rgb.0 as u8, rgb.1 as u8, rgb.2 as u8, a2 as u8])
    }
}

proof fn mul_le(x: int, y: int, bx: int, by: int)
    by (nonlinear_arith)
    requires
        0 <= x <= bx,
        0 <= y <= by,
    ensures
        x * y <= bx * by,
{
}

proof fn div_le(x: int, bx: int, d: int)
    by (nonlinear_arith)
    requires
        0 <= x <= bx,
        1 <= d,
    ensures
        0 <= x / d <= bx,
{
}

impl HexColor {
    /// Applies a modifier record to this literal color. The result is a
    /// pure function of the color and the record, and an empty record
    /// returns the color unchanged.
    pub fn apply_modifiers(self, modifiers: ColorModifiers) -> (res: HexColor)
        ensures
            res == spec_apply_modifiers(self, modifiers),
            modifiers.spec_is_empty() ==> res == self,
    {
        let u: u64 = MOD_ONE as u64;
        let r8 = self.0[0];
        let g8 = self.0[1];
        let b8 = self.0[2];
        let a8 = self.0[3];
        let a2: u8 = match modifiers.alpha {
            Some(k) => {
                proof {
                    mul_le(a8 as int, k as int, 255, 0xffff_ffff);
                }
                let t: u64 = (a8 as u64) * (k as u64) / u;
                let t = if t > 255 {
                    255
                } else {
                    t
                };
                t as u8
            },
            None => a8,
        };
        let has_hsl = modifiers.lighten.is_some() || modifiers.darken.is_some()
            || modifiers.saturate.is_some() || modifiers.desaturate.is_some()
            || modifiers.hue_shift.is_some();
        if !has_hsl {
            let res = HexColor([r8, g8, b8, a2]);
            proof {
                assert(res.0 =~= spec_apply_modifiers(self, modifiers).0);
                if modifiers.spec_is_empty() {
                    assert(res.0 =~= self.0);
                }
            }
            return res;
        }
        let (l0, s0, h0) = rgb_to_hsl(r8, g8, b8);
        let l1 = match modifiers.darken {
            Some(k) => toward_zero(l0, k),
            None => l0,
        };
        let l2 = match modifiers.lighten {
            Some(k) => toward_one(l1, k),
            None => l1,
        };
        let s1 = match modifiers.desaturate {
            Some(k) => toward_zero(s0, k),
            None => s0,
        };
        let s2 = match modifiers.saturate {
            Some(k) => toward_one(s1, k),
            None => s1,
        };
        let h1 = match modifiers.hue_shift {
            Some(d) => shift_hue(h0, d),
            None => h0,
        };
        let (r2, g2, b2) = hsl_to_rgb(l2, s2, h1);
        let res = HexColor([r2, g2, b2, a2]);
        proof {
            assert(res.0 =~= spec_apply_modifiers(self, modifiers).0);
        }
        res
    }
}

/// Converts an RGB triple to fixed-point lightness, saturation and hue.
fn rgb_to_hsl(r8: u8, g8: u8, b8: u8) -> (res: (u64, u64, u64))
    ensures
        res.0 as int == sp_lightness(r8 as int, g8 as int, b8 as int),
        res.1 as int == sp_saturation(r8 as int, g8 as int, b8 as int),
        res.2 as int == sp_hue(r8 as int, g8 as int, b8 as int),
        res.0 <= MOD_ONE,
        res.1 <= MOD_ONE,
        res.2 < 360 * (MOD_ONE as u64),
{
    let r: u64 = r8 as u64;
    let g: u64 = g8 as u64;
    let b: u64 = b8 as u64;
    let u: u64 = MOD_ONE as u64;
    let mx = if r >= g && r >= b {
        r
    } else if g >= b {
        g
    } else {
        b
    };
    let mn = if r <= g && r <= b {
        r
    } else if g <= b {
        g
    } else {
        b
    };
    let sum = mx + mn;
    let l = sum * 500;
    let delta = mx - mn;
    let den = if sum <= 255 {
        sum
    } else {
        510 - sum
    };
    let s = if den == 0 {
        0
    } else {
        let t = delta * u / den;
        if t > u {
            u
        } else {
            t
        }
    };
    let h: u64 = if delta == 0 {
        0
    } else if mx == r {
        if g >= b {
            60 * ((g - b) * u) / delta
        } else {
            let p = 60 * ((b - g) * u) / delta;
            if p == 0 {
                0
            } else {
                proof {
                    div_le(60 * ((b8 - g8) * MOD_ONE as int), 60 * 255 * MOD_ONE as int, delta as int);
                }
                let p = if p > 360 * u {
                    360 * u
                } else {
                    p
                };
                360 * u - p
            }
        }
    } else if mx == g {
        if b >= r {
            120 * u + 60 * ((b - r) * u) / delta
        } else {
            let p = 60 * ((r - b) * u) / delta;
            let p = if p > 120 * u {
                120 * u
            } else {
                p
            };
            120 * u - p
        }
    } else {
        if r >= g {
            240 * u + 60 * ((r - g) * u) / delta
        } else {
            let p = 60 * ((g - r) * u) / delta;
            let p = if p > 240 * u {
                240 * u
            } else {
                p
            };
            240 * u - p
        }
    };
    let h = if h >= 360 * u {
        360 * u - 1
    } else {
        h
    };
    (l, s, h)
}

fn toward_zero(v: u64, k: u32) -> (res: u64)
    requires
        v <= MOD_ONE,
    ensures
        res as int == sp_toward_zero(v as int, k as int),
        res <= MOD_ONE,
{
    let u: u64 = MOD_ONE as u64;
    if k as u64 >= u {
        0
    } else {
        proof {
            mul_le(v as int, k as int, MOD_ONE as int, MOD_ONE as int);
        }
        let t = v * (k as u64) / u;
        if t > v {
            0
        } else {
            v - t
        }
    }
}

fn toward_one(v: u64, k: u32) -> (res: u64)
    requires
        v <= MOD_ONE,
    ensures
        res as int == sp_toward_one(v as int, k as int),
        res <= MOD_ONE,
{
    let u: u64 = MOD_ONE as u64;
    if k as u64 >= u {
        u
    } else {
        proof {
            mul_le((MOD_ONE - v) as int, k as int, MOD_ONE as int, MOD_ONE as int);
        }
        let t = (u - v) * (k as u64) / u;
        if t > u - v {
            u
        } else {
            v + t
        }
    }
}

fn shift_hue(h: u64, d: i64) -> (res: u64)
    requires
        h < 360 * (MOD_ONE as u64),
    ensures
        res as int == sp_shift_hue(h as int, d as int),
        res < 360 * (MOD_ONE as u64),
{
    let p: u64 = 360 * (MOD_ONE as u64);
    if d >= 0 {
        (h + (d as u64) % p) % p
    } else {
        let mag: u64 = (-(d as i128)) as u64;
        (h + (p - mag % p)) % p
    }
}

/// Converts fixed-point lightness, saturation and hue back to RGB.
fn hsl_to_rgb(l: u64, s: u64, h: u64) -> (res: (u8, u8, u8))
    requires
        l <= MOD_ONE,
        s <= MOD_ONE,
        h < 360 * (MOD_ONE as u64),
    ensures
        (res.0 as int, res.1 as int, res.2 as int) == sp_rgb_of_hsl(l as int, s as int, h as int),
{
    let u: u64 = MOD_ONE as u64;
    let two_l = 2 * l;
    let ab = if two_l >= u {
        two_l - u
    } else {
        u - two_l
    };
    proof {
        mul_le((MOD_ONE as int - abs_int(2 * l - MOD_ONE as int)), s as int, MOD_ONE as int, MOD_ONE as int);
    }
    let c0 = (u - ab) * s / u;
    let c = if c0 > u {
        u
    } else {
        c0
    };
    let hm = h % (120 * u);
    let ab2 = if hm >= 60 * u {
        hm - 60 * u
    } else {
        60 * u - hm
    };
    proof {
        mul_le(c as int, 60 * MOD_ONE as int - abs_int(hm as int - 60 * MOD_ONE as int), MOD_ONE as int, 60 * MOD_ONE as int);
    }
    let x0 = c * (60 * u - ab2) / (60 * u);
    let x = if x0 > c {
        c
    } else {
        x0
    };
    let m = if c / 2 > l {
        0
    } else {
        l - c / 2
    };
    let sector = h / (60 * u);
    let sector = if sector > 5 {
        5
    } else {
        sector
    };
    let (r1, g1, b1) = if sector == 0 {
        (c, x, 0)
    } else if sector == 1 {
        (x, c, 0)
    } else if sector == 2 {
        (0, c, x)
    } else if sector == 3 {
        (0, x, c)
    } else if sector == 4 {
        (x, 0, c)
    } else {
        (c, 0, x)
    };
    (channel(r1, m), channel(g1, m), channel(b1, m))
}

fn channel(v: u64, m: u64) -> (res: u8)
    requires
        v <= MOD_ONE,
        m <= MOD_ONE,
    ensures
        res as int == sp_channel(v as int, m as int),
{
    let u: u64 = MOD_ONE as u64;
    let t = (v + m) * 255 / u;
    let t = if t > 255 {
        255
    } else {
        t
    };
    t as u8
}

} // verus!
