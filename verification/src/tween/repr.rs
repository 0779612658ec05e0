//! Textual representations for the renderer: color and shadow literal
//! strings, gradient descriptor strings, and a parser for the same
//! canonical forms.
//!
//! A fixed-point scalar is written as its integer part, a dot, and
//! exactly six fractional digits (`-2.500000`); a color as
//! `rgb(r, g, b, a)`; a shadow as the inset prefix (when applicable),
//! its four scalars and its fill color; a gradient as
//! `<kind>-gradient(<color> <position>%, ...)`.

use vstd::prelude::*;
use vstd::string::{StringExecFns, StrSliceExecFns};
use crate::fixed::{SCALE, FX_MAX};
use super::value::{Color, Fill, Shadow, ShadowPosition, Value};

verus! {

/// The decimal digit character for `d` in `[0, 9]`.
pub open spec fn digit_char(d: int) -> char {
    if d == 0 {
        '0'
    } else if d == 1 {
        '1'
    } else if d == 2 {
        '2'
    } else if d == 3 {
        '3'
    } else if d == 4 {
        '4'
    } else if d == 5 {
        '5'
    } else if d == 6 {
        '6'
    } else if d == 7 {
        '7'
    } else if d == 8 {
        '8'
    } else {
        '9'
    }
}

/// The decimal digits of a nonnegative integer, most significant first.
pub open spec fn dec_rep(n: int) -> Seq<char>
    decreases n,
{
    if n < 10 {
        seq![digit_char(n)]
    } else {
        dec_rep(n / 10).push(digit_char(n % 10))
    }
}

/// The last `width` decimal digits of a nonnegative integer, zero-padded.
pub open spec fn dec_pad(n: int, width: nat) -> Seq<char>
    decreases width,
{
    if width == 0 {
        Seq::<char>::empty()
    } else {
        dec_pad(n / 10, (width - 1) as nat).push(digit_char(n % 10))
    }
}

/// A fixed-point scalar: sign, integer part, a dot, six fractional digits.
pub open spec fn fixed_rep(v: int) -> Seq<char> {
    let m = if v >= 0 {
        v
    } else {
        -v
    };
    let sign: Seq<char> = if v < 0 {
        seq!['-']
    } else {
        Seq::<char>::empty()
    };
    sign + dec_rep(m / (SCALE as int)) + seq!['.'] + dec_pad(m % (SCALE as int), 6)
}

/// A color literal: `rgb(r, g, b, a)`.
pub open spec fn color_rep(c: Color) -> Seq<char> {
    "rgb("@ + dec_rep(c.r as int) + ", "@ + dec_rep(c.g as int) + ", "@ + dec_rep(c.b as int)
        + ", "@ + dec_rep(c.a as int) + ")"@
}

/// A shadow literal: inset prefix when applicable, the four scalars,
/// then the fill color. Defined for flat-fill shadows.
pub open spec fn shadow_rep(sh: Shadow) -> Seq<char> {
    let prefix: Seq<char> = if sh.position is Inset {
        "inset "@
    } else {
        Seq::<char>::empty()
    };
    prefix + fixed_rep(sh.x as int) + " "@ + fixed_rep(sh.y as int) + " "@ + fixed_rep(
        sh.blur as int) + " "@ + fixed_rep(sh.spread as int) + " "@ + color_rep(sh.fill->Color_0)
}

/// One digit as a one-character string slice.
fn digit_str(d: u8) -> (r: &'static str)
    requires
        d < 10,
    ensures
        r@ == seq![digit_char(d as int)],
{
    proof {
        reveal_strlit("0");
        reveal_strlit("1");
        reveal_strlit("2");
        reveal_strlit("3");
        reveal_strlit("4");
        reveal_strlit("5");
        reveal_strlit("6");
        reveal_strlit("7");
        reveal_strlit("8");
        reveal_strlit("9");
    }
    let r: &'static str = match d {
        0 => "0",
        1 => "1",
        2 => "2",
        3 => "3",
        4 => "4",
        5 => "5",
        6 => "6",
        7 => "7",
        8 => "8",
        _ => "9",
    };
    proof {
        assert(r@ =~= seq![digit_char(d as int)]);
    }
    r
}

/// Appends the decimal digits of `n`.
fn push_dec(s: &mut String, n: u64)
    ensures
        final(s)@ == old(s)@ + dec_rep(n as int),
    decreases n,
{
    if n < 10 {
        s.append(digit_str(n as u8));
    } else {
        push_dec(s, n / 10);
        s.append(digit_str((n % 10) as u8));
        proof {
            assert(final(s)@ =~= old(s)@ + dec_rep(n as int));
        }
    }
}

/// Appends the last `width` decimal digits of `n`, zero-padded.
fn push_pad(s: &mut String, n: u64, width: u32)
    ensures
        final(s)@ == old(s)@ + dec_pad(n as int, width as nat),
    decreases width,
{
    if width > 0 {
        push_pad(s, n / 10, width - 1);
        s.append(digit_str((n % 10) as u8));
        proof {
            assert(final(s)@ =~= old(s)@ + dec_pad(n as int, width as nat));
        }
    } else {
        proof {
            assert(final(s)@ =~= old(s)@ + dec_pad(n as int, 0));
        }
    }
}

/// Appends a fixed-point scalar in its canonical form.
fn push_fixed(s: &mut String, v: i64)
    requires
        -FX_MAX <= v <= FX_MAX,
    ensures
        final(s)@ == old(s)@ + fixed_rep(v as int),
{
    proof {
        reveal_strlit("-");
        reveal_strlit(".");
    }
    if v < 0 {
        s.append("-");
    }
    let m: i64 = if v < 0 {
        -v
    } else {
        v
    };
    push_dec(s, (m / SCALE) as u64);
    s.append(".");
    push_pad(s, (m % SCALE) as u64, 6);
    proof {
        assert(final(s)@ =~= old(s)@ + fixed_rep(v as int));
    }
}

/// Appends a color literal.
fn push_color(s: &mut String, c: &Color)
    ensures
        final(s)@ == old(s)@ + color_rep(*c),
{
    s.append("rgb(");
    push_dec(s, c.r as u64);
    s.append(", ");
    push_dec(s, c.g as u64);
    s.append(", ");
    push_dec(s, c.b as u64);
    s.append(", ");
    push_dec(s, c.a as u64);
    s.append(")");
    proof {
        assert(final(s)@ =~= old(s)@ + color_rep(*c));
    }
}

/// The canonical color literal string.
pub fn color_string(c: &Color) -> (r: String)
    ensures
        r@ == color_rep(*c),
{
    let mut s = String::new();
    push_color(&mut s, c);
    proof {
        assert(s@ =~= color_rep(*c));
    }
    s
}

/// The canonical shadow literal string, for a flat-fill shadow.
pub fn shadow_string(sh: &Shadow) -> (r: String)
    requires
        sh.wf(),
        sh.has_flat_fill(),
    ensures
        r@ == shadow_rep(*sh),
{
    proof {
        reveal_strlit("inset ");
        reveal_strlit(" ");
    }
    let mut s = String::new();
    match sh.position {
        ShadowPosition::Inset => s.append("inset "),
        ShadowPosition::Normal => (),
    }
    push_fixed(&mut s, sh.x);
    s.append(" ");
    push_fixed(&mut s, sh.y);
    s.append(" ");
    push_fixed(&mut s, sh.blur);
    s.append(" ");
    push_fixed(&mut s, sh.spread);
    s.append(" ");
    let c = match &sh.fill {
        Fill::Color(c) => *c,
        Fill::Gradient(_) => {
            // Statically unreachable: the fill is flat here.
            proof {
                assert(false);
            }
            Color { r: 0, g: 0, b: 0, a: 0 }
        },
    };
    push_color(&mut s, &c);
    proof {
        assert(s@ =~= shadow_rep(*sh));
    }
    s
}

impl Value {
    /// Which values have a textual representation: colors, flat-fill
    /// shadows, and gradients. Numbers and points are consumed in their
    /// native numeric form and have none.
    pub open spec fn serializable(self) -> bool {
        match self {
            Value::Color(_) => true,
            Value::Shadow(sh) => sh.has_flat_fill(),
            Value::Gradient(_) => true,
            _ => false,
        }
    }

    /// The canonical textual representation of a serializable value; a
    /// gradient passes its stored descriptor through unchanged.
    pub open spec fn repr(self) -> Seq<char> {
        match self {
            Value::Color(c) => color_rep(c),
            Value::Shadow(sh) => shadow_rep(sh),
            Value::Gradient(g) => g@,
            _ => Seq::<char>::empty(),
        }
    }

    /// The textual form handed to the renderer: `Some` exactly for
    /// serializable values, `None` for numbers and points, whose string
    /// form is unsupported.
    pub fn to_external_representation(&self) -> (r: Option<String>)
        requires
            self.wf(),
        ensures
            r is Some <==> self.serializable(),
            r is Some ==> r->0@ == self.repr(),
    {
        match self {
            Value::Color(c) => Some(color_string(c)),
            Value::Shadow(sh) => {
                let flat = matches!(&sh.fill, Fill::Color(_));
                if flat {
                    Some(shadow_string(sh))
                } else {
                    None
                }
            },
            Value::Gradient(g) => Some(g.clone()),
            Value::Number(_) => None,
            Value::Point(_) => None,
        }
    }
}

// ---------------------------------------------------------------------------
// Gradient descriptors: built from a kind and an ordered list of
// (position, color) stops.
// ---------------------------------------------------------------------------

/// The gradient shape.
#[derive(Clone, Copy, Debug, PartialEq, Eq, Structural)]
pub enum GradientKind {
    Linear,
    Radial,
    Conic,
}

/// The kind's name in the descriptor string.
pub open spec fn kind_rep(k: GradientKind) -> Seq<char> {
    match k {
        GradientKind::Linear => "linear"@,
        GradientKind::Radial => "radial"@,
        GradientKind::Conic => "conic"@,
    }
}

/// One stop: the color literal, a space, the position as a percentage.
pub open spec fn stop_rep(st: (i64, Color)) -> Seq<char> {
    color_rep(st.1) + " "@ + fixed_rep(st.0 * 100) + "%"@
}

/// The comma-joined stop list.
pub open spec fn stops_rep(stops: Seq<(i64, Color)>) -> Seq<char>
    decreases stops.len(),
{
    if stops.len() == 0 {
        Seq::<char>::empty()
    } else if stops.len() == 1 {
        stop_rep(stops[0])
    } else {
        stops_rep(stops.drop_last()) + ", "@ + stop_rep(stops.last())
    }
}

/// The whole descriptor: `<kind>-gradient(<stops>)`.
pub open spec fn gradient_rep(k: GradientKind, stops: Seq<(i64, Color)>) -> Seq<char> {
    kind_rep(k) + "-gradient("@ + stops_rep(stops) + ")"@
}

/// A gradient descriptor under construction: a kind and an ordered
/// sequence of stops, each a position in `[0, SCALE]` with a color.
pub struct Gradient {
    pub kind: GradientKind,
    pub stops: Vec<(i64, Color)>,
}

impl Gradient {
    /// Every stop position lies in the unit interval.
    pub open spec fn wf(self) -> bool {
        forall|i: int|
            0 <= i < self.stops@.len() ==> 0 <= (#[trigger] self.stops@[i]).0 <= SCALE
    }

    /// An empty linear gradient.
    pub fn linear() -> (g: Gradient)
        ensures
            g.kind == GradientKind::Linear,
            g.stops@ == Seq::<(i64, Color)>::empty(),
            g.wf(),
    {
        Gradient { kind: GradientKind::Linear, stops: Vec::new() }
    }

    /// An empty radial gradient.
    pub fn radial() -> (g: Gradient)
        ensures
            g.kind == GradientKind::Radial,
            g.stops@ == Seq::<(i64, Color)>::empty(),
            g.wf(),
    {
        Gradient { kind: GradientKind::Radial, stops: Vec::new() }
    }

    /// An empty conic gradient.
    pub fn conic() -> (g: Gradient)
        ensures
            g.kind == GradientKind::Conic,
            g.stops@ == Seq::<(i64, Color)>::empty(),
            g.wf(),
    {
        Gradient { kind: GradientKind::Conic, stops: Vec::new() }
    }

    /// Appends one stop: a position in the unit interval and its color.
    pub fn stop(self, at: i64, color: Color) -> (g: Gradient)
        requires
            self.wf(),
            0 <= at <= SCALE,
        ensures
            g.kind == self.kind,
            g.stops@ == self.stops@.push((at, color)),
            g.wf(),
    {
        let mut stops = self.stops;
        stops.push((at, color));
        Gradient { kind: self.kind, stops }
    }

    /// Builds the descriptor string and wraps it as a gradient value.
    pub fn build(self) -> (v: Value)
        requires
            self.wf(),
        ensures
            v is Gradient,
            v->Gradient_0@ == gradient_rep(self.kind, self.stops@),
    {
        proof {
            reveal_strlit("linear");
            reveal_strlit("radial");
            reveal_strlit("conic");
            reveal_strlit("-gradient(");
            reveal_strlit(", ");
            reveal_strlit(" ");
            reveal_strlit("%");
            reveal_strlit(")");
        }
        let mut s = String::new();
        match self.kind {
            GradientKind::Linear => s.append("linear"),
            GradientKind::Radial => s.append("radial"),
            GradientKind::Conic => s.append("conic"),
        }
        s.append("-gradient(");
        let n = self.stops.len();
        let mut i: usize = 0;
        while i < n
        invariant
                i <= n,
                n == self.stops@.len(),
                self.wf(),
                s@ == kind_rep(self.kind) + "-gradient("@ + stops_rep(self.stops@.take(i as int)),
            decreases n - i,
        {
            if i > 0 {
                s.append(", ");
            }
            let (at, c) = self.stops[i];
            push_color(&mut s, &c);
            s.append(" ");
            push_fixed(&mut s, at * 100);
            s.append("%");
            proof {
                let stops = self.stops@;
                let pre = stops.take(i as int);
                let post = stops.take(i as int + 1);
                assert(post.drop_last() =~= pre);
                assert(post.last() == stops[i as int]);
                if i == 0 {
                    assert(s@ =~= kind_rep(self.kind) + "-gradient("@ + stops_rep(post));
                } else {
                    assert(stops_rep(post) == stops_rep(pre) + ", "@ + stop_rep(stops[i as int]));
                    assert(s@ =~= kind_rep(self.kind) + "-gradient("@ + stops_rep(post));
                }
            }
            i = i + 1;
        }
        s.append(")");
        proof {
            assert(self.stops@.take(n as int) =~= self.stops@);
            assert(s@ =~= gradient_rep(self.kind, self.stops@));
        }
        Value::Gradient(s)
    }
}

// ---------------------------------------------------------------------------
// Parsing the canonical forms back. The scanner below reads maximal digit
// runs; the lemmas show that scanning the canonical digit sequences
// recovers exactly the number they were printed from, so each parser both
// accepts every canonical string (returning the value it serializes) and
// accepts nothing else (a successful parse re-serializes to its input).
// ---------------------------------------------------------------------------

/// The numeric value of a decimal digit character, `-1` for any other.
pub open spec fn digit_val(ch: char) -> int {
    if ch == '0' {
        0
    } else if ch == '1' {
        1
    } else if ch == '2' {
        2
    } else if ch == '3' {
        3
    } else if ch == '4' {
        4
    } else if ch == '5' {
        5
    } else if ch == '6' {
        6
    } else if ch == '7' {
        7
    } else if ch == '8' {
        8
    } else if ch == '9' {
        9
    } else {
        -1
    }
}

/// Where the maximal run of digit characters starting at `i` ends.
pub open spec fn digits_end(s: Seq<char>, i: int) -> int
    decreases s.len() - i,
    when 0 <= i <= s.len()
{
    if i < s.len() && digit_val(s[i]) >= 0 {
        digits_end(s, i + 1)
    } else {
        i
    }
}

/// The number read by scanning that digit run left to right onto `acc`.
pub open spec fn digits_value(s: Seq<char>, i: int, acc: int) -> int
    decreases s.len() - i,
    when 0 <= i <= s.len()
{
    if i < s.len() && digit_val(s[i]) >= 0 {
        digits_value(s, i + 1, acc * 10 + digit_val(s[i]))
    } else {
        acc
    }
}

/// Ten to the `k`.
pub open spec fn pow10(k: nat) -> int
    decreases k,
{
    if k == 0 {
        1
    } else {
        10 * pow10((k - 1) as nat)
    }
}

/// The digit character of `d` reads back as `d`.
proof fn lemma_digit_char_val(d: int)
    requires
        0 <= d <= 9,
    ensures
        digit_val(digit_char(d)) == d,
{
}

/// Scanning never decreases the accumulator.
proof fn lemma_digits_value_at_least(s: Seq<char>, i: int, acc: int)
    requires
        0 <= i <= s.len(),
        0 <= acc,
    ensures
        digits_value(s, i, acc) >= acc,
    decreases s.len() - i,
{
    if i < s.len() && digit_val(s[i]) >= 0 {
        assert(acc * 10 >= acc) by (nonlinear_arith)
            requires
                acc >= 0,
        ;
        lemma_digits_value_at_least(s, i + 1, acc * 10 + digit_val(s[i]));
    }
}

/// The decimal digits of a nonnegative number are at least one character,
/// and start with a digit.
proof fn lemma_dec_rep_first(n: int)
    requires
        0 <= n,
    ensures
        dec_rep(n).len() >= 1,
        digit_val(dec_rep(n)[0]) >= 0,
    decreases n,
{
    if n < 10 {
        lemma_digit_char_val(n);
    } else {
        lemma_dec_rep_first(n / 10);
        assert(dec_rep(n)[0] == dec_rep(n / 10)[0]);
    }
}

/// A zero-padded field is exactly `width` characters.
proof fn lemma_dec_pad_len(n: int, width: nat)
    ensures
        dec_pad(n, width).len() == width,
    decreases width,
{
    if width > 0 {
        lemma_dec_pad_len(n / 10, (width - 1) as nat);
    }
}

/// Scanning a printed number: the digit run of `dec_rep(n)` laid at `i`
/// ends right after it, and scanning it multiplies the accumulator past
/// it and adds `n`.
proof fn lemma_scan_dec_rep(s: Seq<char>, i: int, n: int, acc: int)
    requires
        0 <= n,
        0 <= i,
        i + dec_rep(n).len() <= s.len(),
        s.subrange(i, i + dec_rep(n).len()) == dec_rep(n),
    ensures
        digits_end(s, i) == digits_end(s, i + dec_rep(n).len()),
        digits_value(s, i, acc) == digits_value(
            s,
            i + dec_rep(n).len(),
            acc * pow10(dec_rep(n).len()) + n,
        ),
    decreases n,
{
    if n < 10 {
        assert(s[i] == dec_rep(n)[0]);
        lemma_digit_char_val(n);
        assert(pow10(1) == 10 * pow10(0));
        assert(acc * pow10(1) + n == acc * 10 + n) by (nonlinear_arith)
            requires
                pow10(1) == 10,
        ;
    } else {
        let l0 = dec_rep(n / 10).len() as int;
        lemma_dec_rep_first(n / 10);
        assert(dec_rep(n) == dec_rep(n / 10).push(digit_char(n % 10)));
        assert(s.subrange(i, i + l0) =~= dec_rep(n / 10));
        lemma_scan_dec_rep(s, i, n / 10, acc);
        assert(s[i + l0] == dec_rep(n)[l0]);
        lemma_digit_char_val(n % 10);
        let a2 = acc * pow10(l0 as nat) + n / 10;
        assert(digits_value(s, i + l0, a2) == digits_value(s, i + l0 + 1, a2 * 10 + digit_val(
            s[i + l0])));
        vstd::arithmetic::div_mod::lemma_fundamental_div_mod(n, 10);
        assert(pow10((l0 + 1) as nat) == 10 * pow10(l0 as nat));
        assert(a2 * 10 + n % 10 == acc * pow10((l0 + 1) as nat) + n) by (nonlinear_arith)
            requires
                a2 == acc * pow10(l0 as nat) + n / 10,
                n == 10 * (n / 10) + n % 10,
                pow10((l0 + 1) as nat) == 10 * pow10(l0 as nat),
        ;
    }
}

/// Scanning a zero-padded field of `w` digits holding `n < 10^w` behaves
/// the same way.
proof fn lemma_scan_dec_pad(s: Seq<char>, i: int, n: int, w: nat, acc: int)
    requires
        0 <= n < pow10(w),
        0 <= i,
        i + w <= s.len(),
        s.subrange(i, i + w) == dec_pad(n, w),
    ensures
        digits_end(s, i) == digits_end(s, i + w),
        digits_value(s, i, acc) == digits_value(s, i + w, acc * pow10(w) + n),
    decreases w,
{
    if w == 0 {
        assert(n == 0);
        assert(acc * pow10(0) + 0 == acc) by (nonlinear_arith)
            requires
                pow10(0) == 1,
        ;
    } else {
        let w0 = (w - 1) as nat;
        let p0 = pow10(w0);
        lemma_dec_pad_len(n / 10, w0);
        assert(dec_pad(n, w) == dec_pad(n / 10, w0).push(digit_char(n % 10)));
        assert(s.subrange(i, i + w0) =~= dec_pad(n / 10, w0));
        assert(pow10(w) == 10 * p0);
        vstd::arithmetic::div_mod::lemma_fundamental_div_mod_converse(
            10 * p0 - 1, 10, p0 - 1, 9);
        vstd::arithmetic::div_mod::lemma_div_is_ordered(n, 10 * p0 - 1, 10);
        vstd::arithmetic::div_mod::lemma_div_pos_is_pos(n, 10);
        lemma_scan_dec_pad(s, i, n / 10, w0, acc);
        assert(s[i + w0] == dec_pad(n, w)[w0 as int]);
        lemma_digit_char_val(n % 10);
        let a2 = acc * p0 + n / 10;
        assert(digits_value(s, i + w0, a2) == digits_value(s, i + w0 + 1, a2 * 10 + digit_val(
            s[i + w0])));
        vstd::arithmetic::div_mod::lemma_fundamental_div_mod(n, 10);
        assert(a2 * 10 + n % 10 == acc * pow10(w) + n) by (nonlinear_arith)
            requires
                a2 == acc * p0 + n / 10,
                n == 10 * (n / 10) + n % 10,
                pow10(w) == 10 * p0,
        ;
    }
}

/// The numeric value of a decimal digit character, `None` for any other.
fn char_digit(c: char) -> (r: Option<u8>)
    ensures
        r matches Some(d) ==> d == digit_val(c),
        r is None ==> digit_val(c) < 0,
{
    match c {
        '0' => Some(0),
        '1' => Some(1),
        '2' => Some(2),
        '3' => Some(3),
        '4' => Some(4),
        '5' => Some(5),
        '6' => Some(6),
        '7' => Some(7),
        '8' => Some(8),
        '9' => Some(9),
        _ => None,
    }
}

/// Reads the maximal digit run starting at `i`: its end, and its value
/// whenever that value is small enough to report.
fn scan_number(s: &str, i: usize) -> (r: (Option<u64>, usize))
    requires
        i <= s@.len(),
    ensures
        r.1 == digits_end(s@, i as int),
        i <= r.1 <= s@.len(),
        digits_value(s@, i as int, 0) <= 999_999_999 ==> (r.0 matches Some(v) && v
            == digits_value(s@, i as int, 0)),
{
    let len = s.unicode_len();
    let mut j: usize = i;
    let mut acc: u64 = 0;
    let mut over = false;
    loop
        invariant
            i <= j <= len,
            len == s@.len(),
            digits_end(s@, i as int) == digits_end(s@, j as int),
            !over ==> acc <= 999_999_999 && digits_value(s@, i as int, 0) == digits_value(
                s@, j as int, acc as int),
            over ==> digits_value(s@, i as int, 0) > 999_999_999,
        ensures
            j == len || digit_val(s@[j as int]) < 0,
        decreases len - j,
    {
        if j == len {
            break;
        }
        let c = s.get_char(j);
        match char_digit(c) {
            None => {
                break;
            },
            Some(d) => {
                proof {
                    if !over {
                        assert(digits_value(s@, j as int, acc as int) == digits_value(
                            s@, j as int + 1, (acc as int) * 10 + digit_val(s@[j as int])));
                    }
                }
                if !over {
                    if acc <= 99_999_999 {
                        acc = acc * 10 + (d as u64);
                    } else {
                        proof {
                            lemma_digits_value_at_least(
                                s@, j as int + 1, (acc as int) * 10 + digit_val(s@[j as int]));
                            assert((acc as int) * 10 >= 1_000_000_000) by (nonlinear_arith)
                                requires
                                    acc as int >= 100_000_000,
                            ;
                        }
                        over = true;
                    }
                }
                j = j + 1;
            },
        }
    }
    proof {
        assert(digits_end(s@, j as int) == j as int);
        assert(digits_value(s@, j as int, acc as int) == acc as int);
    }
    if over {
        (None, j)
    } else {
        (Some(acc), j)
    }
}

/// How a canonical color literal decomposes for the scanner: each digit
/// run sits after its fixed separator, reads back as its channel, and
/// the literal ends right after the closing parenthesis.
#[verifier::rlimit(100)]
proof fn lemma_color_structure(s: Seq<char>, from: int, c: Color)
    requires
        0 <= from <= s.len(),
        s.subrange(from, s.len() as int) == color_rep(c),
    ensures
        ({
            let e1 = digits_end(s, from + 4);
            let e2 = digits_end(s, e1 + 2);
            let e3 = digits_end(s, e2 + 2);
            let e4 = digits_end(s, e3 + 2);
            &&& s.len() - from >= 15
            &&& e1 + 2 < s.len()
            &&& e2 + 2 < s.len()
            &&& e3 + 2 < s.len()
            &&& digits_value(s, from + 4, 0) == c.r
            &&& digits_value(s, e1 + 2, 0) == c.g
            &&& digits_value(s, e2 + 2, 0) == c.b
            &&& digits_value(s, e3 + 2, 0) == c.a
            &&& e4 + 1 == s.len()
        }),
{
    reveal_strlit("rgb(");
    reveal_strlit(", ");
    reveal_strlit(")");
    let ra = dec_rep(c.r as int);
    let ga = dec_rep(c.g as int);
    let ba = dec_rep(c.b as int);
    let aa = dec_rep(c.a as int);
    lemma_dec_rep_first(c.r as int);
    lemma_dec_rep_first(c.g as int);
    lemma_dec_rep_first(c.b as int);
    lemma_dec_rep_first(c.a as int);
    let l1 = ra.len() as int;
    let l2 = ga.len() as int;
    let l3 = ba.len() as int;
    let l4 = aa.len() as int;
    let p1 = from + 4;
    let q1 = p1 + l1;
    let p2 = q1 + 2;
    let q2 = p2 + l2;
    let p3 = q2 + 2;
    let q3 = p3 + l3;
    let p4 = q3 + 2;
    let q4 = p4 + l4;
    let t = color_rep(c);
    let end = s.len() as int;
    assert(t.len() == 4 + l1 + 2 + l2 + 2 + l3 + 2 + l4 + 1);
    assert(s.len() - from == 4 + l1 + 2 + l2 + 2 + l3 + 2 + l4 + 1);
    assert(t.subrange(4, 4 + l1) =~= ra);
    assert(s.subrange(p1, q1) =~= s.subrange(from, end).subrange(4, 4 + l1));
    assert(t.subrange(q1 - from, q1 - from + 2) =~= ", "@);
    assert(s.subrange(q1, q1 + 2) =~= s.subrange(from, end).subrange(q1 - from, q1 - from + 2));
    assert(s[q1] == s.subrange(q1, q1 + 2)[0]);
    assert(t.subrange(p2 - from, q2 - from) =~= ga);
    assert(s.subrange(p2, q2) =~= s.subrange(from, end).subrange(p2 - from, q2 - from));
    assert(t.subrange(q2 - from, q2 - from + 2) =~= ", "@);
    assert(s.subrange(q2, q2 + 2) =~= s.subrange(from, end).subrange(q2 - from, q2 - from + 2));
    assert(s[q2] == s.subrange(q2, q2 + 2)[0]);
    assert(t.subrange(p3 - from, q3 - from) =~= ba);
    assert(s.subrange(p3, q3) =~= s.subrange(from, end).subrange(p3 - from, q3 - from));
    assert(t.subrange(q3 - from, q3 - from + 2) =~= ", "@);
    assert(s.subrange(q3, q3 + 2) =~= s.subrange(from, end).subrange(q3 - from, q3 - from + 2));
    assert(s[q3] == s.subrange(q3, q3 + 2)[0]);
    assert(t.subrange(p4 - from, q4 - from) =~= aa);
    assert(s.subrange(p4, q4) =~= s.subrange(from, end).subrange(p4 - from, q4 - from));
    assert(t.subrange(q4 - from, q4 - from + 1) =~= ")"@);
    assert(s.subrange(q4, q4 + 1) =~= s.subrange(from, end).subrange(q4 - from, q4 - from + 1));
    assert(s[q4] == s.subrange(q4, q4 + 1)[0]);
    assert(s.subrange(p1, q1) == ra);
    assert(s.subrange(p2, q2) == ga);
    assert(s.subrange(p3, q3) == ba);
    assert(s.subrange(p4, q4) == aa);
    assert(s[q1] == ',');
    assert(s[q2] == ',');
    assert(s[q3] == ',');
    assert(s[q4] == ')');
    lemma_scan_dec_rep(s, p1, c.r as int, 0);
    lemma_scan_dec_rep(s, p2, c.g as int, 0);
    lemma_scan_dec_rep(s, p3, c.b as int, 0);
    lemma_scan_dec_rep(s, p4, c.a as int, 0);
    assert(0 * pow10(ra.len()) == 0) by (nonlinear_arith);
    assert(0 * pow10(ga.len()) == 0) by (nonlinear_arith);
    assert(0 * pow10(ba.len()) == 0) by (nonlinear_arith);
    assert(0 * pow10(aa.len()) == 0) by (nonlinear_arith);
    assert(digits_end(s, q1) == q1);
    assert(digits_end(s, q2) == q2);
    assert(digits_end(s, q3) == q3);
    assert(digits_end(s, q4) == q4);
    assert(digits_value(s, q1, c.r as int) == c.r);
    assert(digits_value(s, q2, c.g as int) == c.g);
    assert(digits_value(s, q3, c.b as int) == c.b);
    assert(digits_value(s, q4, c.a as int) == c.a);
}

/// Reads a color literal that fills the string from `from` to its end.
/// Whenever that remainder is the canonical literal of some color, that
/// color and the end position come back.
fn scan_color(s: &str, from: usize) -> (r: Option<(Color, usize)>)
    requires
        from <= s@.len(),
    ensures
        forall|c: Color|
            s@.subrange(from as int, s@.len() as int) == #[trigger] color_rep(c) ==> (r matches Some(
                p,
            ) && p.0 == c && p.1 == s@.len()),
{
    let len = s.unicode_len();
    if len - from < 5 {
        proof {
            assert forall|c: Color|
                s@.subrange(from as int, s@.len() as int) == #[trigger] color_rep(c)
                implies false by {
                lemma_color_structure(s@, from as int, c);
            }
        }
        return None;
    }
    let (v1, j1) = scan_number(s, from + 4);
    if len - j1 < 2 {
        proof {
            assert forall|c: Color|
                s@.subrange(from as int, s@.len() as int) == #[trigger] color_rep(c)
                implies false by {
                lemma_color_structure(s@, from as int, c);
            }
        }
        return None;
    }
    let (v2, j2) = scan_number(s, j1 + 2);
    if len - j2 < 2 {
        proof {
            assert forall|c: Color|
                s@.subrange(from as int, s@.len() as int) == #[trigger] color_rep(c)
                implies false by {
                lemma_color_structure(s@, from as int, c);
            }
        }
        return None;
    }
    let (v3, j3) = scan_number(s, j2 + 2);
    if len - j3 < 2 {
        proof {
            assert forall|c: Color|
                s@.subrange(from as int, s@.len() as int) == #[trigger] color_rep(c)
                implies false by {
                lemma_color_structure(s@, from as int, c);
            }
        }
        return None;
    }
    let (v4, j4) = scan_number(s, j3 + 2);
    match (v1, v2, v3, v4) {
        (Some(n1), Some(n2), Some(n3), Some(n4)) => {
            if n1 <= 255 && n2 <= 255 && n3 <= 255 && n4 <= 255 && j4 == len - 1 {
                proof {
                    assert forall|c: Color|
                        s@.subrange(from as int, s@.len() as int) == #[trigger] color_rep(c)
                        implies n1 == c.r && n2 == c.g && n3 == c.b && n4 == c.a by {
                        lemma_color_structure(s@, from as int, c);
                    }
                }
                Some((Color { r: n1 as u8, g: n2 as u8, b: n3 as u8, a: n4 as u8 }, len))
            } else {
                proof {
                    assert forall|c: Color|
                        s@.subrange(from as int, s@.len() as int) == #[trigger] color_rep(c)
                        implies false by {
                        lemma_color_structure(s@, from as int, c);
                    }
                }
                None
            }
        },
        _ => {
            proof {
                assert forall|c: Color|
                    s@.subrange(from as int, s@.len() as int) == #[trigger] color_rep(c)
                    implies false by {
                    lemma_color_structure(s@, from as int, c);
                }
            }
            None
        },
    }
}

/// Parses a canonical color literal, both ways exactly: every canonical
/// literal parses back to its color, and a successful parse returns
/// exactly the color whose canonical string is the input.
pub fn parse_color(s: &String) -> (r: Option<Color>)
    ensures
        r matches Some(c) ==> s@ == color_rep(c),
        forall|c: Color| s@ == #[trigger] color_rep(c) ==> r == Some(c),
{
    proof {
        assert(s@.subrange(0, s@.len() as int) =~= s@);
    }
    match scan_color(s.as_str(), 0) {
        None => None,
        Some((c, _end)) => {
            let t = color_string(&c);
            if t.eq(s) {
                Some(c)
            } else {
                None
            }
        },
    }
}

/// A canonical fixed-point scalar lies at `p`: the string holds its
/// characters there, within the scalar range, and the character after it
/// (if any) is not a digit, so a maximal digit scan stops at its end.
pub open spec fn fixed_at(s: Seq<char>, p: int, v: int) -> bool {
    &&& -FX_MAX <= v <= FX_MAX
    &&& 0 <= p
    &&& p + fixed_rep(v).len() <= s.len()
    &&& s.subrange(p, p + fixed_rep(v).len()) == fixed_rep(v)
    &&& (p + fixed_rep(v).len() == s.len() || digit_val(s[p + fixed_rep(v).len()]) < 0)
}

/// How a canonical fixed-point scalar decomposes for the scanner: the
/// sign is present exactly for negative values, the two digit runs read
/// back as integer and fractional part, and the dot sits between them.
#[verifier::rlimit(100)]
proof fn lemma_fixed_structure(s: Seq<char>, p: int, v: int)
    requires
        fixed_at(s, p, v),
    ensures
        ({
            let m = if v >= 0 { v } else { -v };
            let sgn: int = if v < 0 { 1 } else { 0 };
            let p2 = p + sgn;
            let li = dec_rep(m / (SCALE as int)).len() as int;
            &&& fixed_rep(v).len() == sgn + li + 7
            &&& fixed_rep(v).len() >= 8
            &&& (v < 0 <==> s[p] == '-')
            &&& (v >= 0 ==> digit_val(s[p]) >= 0)
            &&& digits_end(s, p2) == p2 + li
            &&& digits_value(s, p2, 0) == m / (SCALE as int)
            &&& s[p2 + li] == '.'
            &&& digits_end(s, p2 + li + 1) == p2 + li + 7
            &&& digits_value(s, p2 + li + 1, 0) == m % (SCALE as int)
        }),
{
    let m = if v >= 0 { v } else { -v };
    let sgn: int = if v < 0 { 1int } else { 0int };
    let sc = SCALE as int;
    let ir = dec_rep(m / sc);
    let fr = dec_pad(m % sc, 6);
    let li = ir.len() as int;
    lemma_dec_rep_first(m / sc);
    lemma_dec_pad_len(m % sc, 6);
    let t = fixed_rep(v);
    let flen = t.len() as int;
    assert(flen == sgn + li + 1 + 6);
    let p2 = p + sgn;
    let q = p + flen;
    if v < 0 {
        assert(s[p] == s.subrange(p, q)[0]);
        assert(t[0] == '-');
    } else {
        assert(s[p] == s.subrange(p, q)[0]);
        assert(t[0] == ir[0]);
    }
    assert(t.subrange(sgn, sgn + li) =~= ir);
    assert(s.subrange(p2, p2 + li) =~= s.subrange(p, q).subrange(sgn, sgn + li));
    assert(s.subrange(p2, p2 + li) == ir);
    assert(s[p2 + li] == s.subrange(p, q)[sgn + li]);
    assert(t[sgn + li] == '.');
    assert(t.subrange(sgn + li + 1, sgn + li + 7) =~= fr);
    assert(s.subrange(p2 + li + 1, p2 + li + 7) =~= s.subrange(p, q).subrange(
        sgn + li + 1, sgn + li + 7));
    assert(s.subrange(p2 + li + 1, p2 + li + 7) == fr);
    lemma_scan_dec_rep(s, p2, m / sc, 0);
    assert(0 * pow10(ir.len()) == 0) by (nonlinear_arith);
    assert(digits_end(s, p2 + li) == p2 + li);
    assert(digits_value(s, p2 + li, m / sc) == m / sc);
    assert(pow10(0) == 1);
    assert(pow10(1) == 10);
    assert(pow10(2) == 100);
    assert(pow10(3) == 1000);
    assert(pow10(4) == 10000);
    assert(pow10(5) == 100000);
    assert(pow10(6) == 1000000);
    lemma_scan_dec_pad(s, p2 + li + 1, m % sc, 6, 0);
    assert(0 * pow10(6) == 0) by (nonlinear_arith);
    assert(digits_end(s, p2 + li + 7) == p2 + li + 7);
    assert(digits_value(s, p2 + li + 7, m % sc) == m % sc);
}

/// Reads one canonical fixed-point scalar at `p`: an optional minus, the
/// integer digits, a dot, six fractional digits. Whenever a canonical
/// scalar sits at `p` (with no digit right after it), that scalar and
/// its end position come back.
fn scan_fixed(s: &str, p: usize) -> (r: Option<(i64, usize)>)
    requires
        p <= s@.len(),
    ensures
        r matches Some(q) ==> -FX_MAX <= q.0 <= FX_MAX && p < q.1 <= s@.len(),
        forall|v: i64|
            #[trigger] fixed_at(s@, p as int, v as int) ==> (r matches Some(q) && q.0 == v && q.1
                == p + fixed_rep(v as int).len()),
{
    let len = s.unicode_len();
    if p == len {
        proof {
            assert forall|v: i64| #[trigger] fixed_at(s@, p as int, v as int) implies false by {
                lemma_fixed_structure(s@, p as int, v as int);
            }
        }
        return None;
    }
    let neg = s.get_char(p) == '-';
    let p2 = if neg {
        p + 1
    } else {
        p
    };
    let (vi, ji) = scan_number(s, p2);
    let ip = match vi {
        Some(n) => n,
        None => {
            proof {
                assert forall|v: i64| #[trigger] fixed_at(s@, p as int, v as int) implies false by {
                    lemma_fixed_structure(s@, p as int, v as int);
                    vstd::arithmetic::div_mod::lemma_div_is_ordered(
                        if v >= 0 { v as int } else { -(v as int) }, FX_MAX as int, SCALE as int);
                }
            }
            return None;
        },
    };
    if ip > 1_000_000 || ji >= len {
        proof {
            assert forall|v: i64| #[trigger] fixed_at(s@, p as int, v as int) implies false by {
                lemma_fixed_structure(s@, p as int, v as int);
                vstd::arithmetic::div_mod::lemma_div_is_ordered(
                    if v >= 0 { v as int } else { -(v as int) }, FX_MAX as int, SCALE as int);
            }
        }
        return None;
    }
    if s.get_char(ji) != '.' {
        proof {
            assert forall|v: i64| #[trigger] fixed_at(s@, p as int, v as int) implies false by {
                lemma_fixed_structure(s@, p as int, v as int);
            }
        }
        return None;
    }
    let (vf, jf) = scan_number(s, ji + 1);
    let fp = match vf {
        Some(n) => n,
        None => {
            proof {
                assert forall|v: i64| #[trigger] fixed_at(s@, p as int, v as int) implies false by {
                    lemma_fixed_structure(s@, p as int, v as int);
                }
            }
            return None;
        },
    };
    if jf - (ji + 1) != 6 || fp > 999_999 {
        proof {
            assert forall|v: i64| #[trigger] fixed_at(s@, p as int, v as int) implies false by {
                lemma_fixed_structure(s@, p as int, v as int);
            }
        }
        return None;
    }
    if ip == 1_000_000 && fp != 0 {
        proof {
            assert forall|v: i64| #[trigger] fixed_at(s@, p as int, v as int) implies false by {
                lemma_fixed_structure(s@, p as int, v as int);
                vstd::arithmetic::div_mod::lemma_fundamental_div_mod(
                    if v >= 0 { v as int } else { -(v as int) }, SCALE as int);
                assert((SCALE as int) * 1_000_000 == FX_MAX as int) by (nonlinear_arith);
            }
        }
        return None;
    }
    let m64: i64 = (ip as i64) * SCALE + (fp as i64);
    let v0: i64 = if neg {
        -m64
    } else {
        m64
    };
    proof {
        assert forall|v: i64| #[trigger] fixed_at(s@, p as int, v as int) implies v0 == v && jf
            == p + fixed_rep(v as int).len() by {
            lemma_fixed_structure(s@, p as int, v as int);
            let m = if v >= 0 { v as int } else { -(v as int) };
            vstd::arithmetic::div_mod::lemma_fundamental_div_mod(m, SCALE as int);
            assert((ip as int) * (SCALE as int) == (SCALE as int) * (ip as int))
                by (nonlinear_arith);
        }
    }
    Some((v0, jf))
}

/// How a canonical shadow literal decomposes: the optional prefix, four
/// canonical scalars each followed by a space, and the fill color's
/// literal filling the rest. The first character is `i` exactly for an
/// inset shadow, and is never a letter otherwise.
#[verifier::rlimit(100)]
proof fn lemma_shadow_structure(s: Seq<char>, sh: Shadow)
    requires
        sh.wf(),
        sh.has_flat_fill(),
        s == shadow_rep(sh),
    ensures
        ({
            let start: int = if sh.position is Inset { 6int } else { 0int };
            let f1 = start + fixed_rep(sh.x as int).len();
            let f2 = f1 + 1 + fixed_rep(sh.y as int).len();
            let f3 = f2 + 1 + fixed_rep(sh.blur as int).len();
            let f4 = f3 + 1 + fixed_rep(sh.spread as int).len();
            &&& s.len() >= 1
            &&& (sh.position is Inset <==> s[0] == 'i')
            &&& s[0] == 'i' || s[0] == '-' || digit_val(s[0]) >= 0
            &&& fixed_at(s, start, sh.x as int)
            &&& fixed_at(s, f1 + 1, sh.y as int)
            &&& fixed_at(s, f2 + 1, sh.blur as int)
            &&& fixed_at(s, f3 + 1, sh.spread as int)
            &&& f4 + 1 <= s.len()
            &&& s.subrange(f4 + 1, s.len() as int) == color_rep(sh.fill->Color_0)
        }),
{
    reveal_strlit("inset ");
    reveal_strlit(" ");
    let start: int = if sh.position is Inset { 6int } else { 0int };
    let x1 = fixed_rep(sh.x as int);
    let x2 = fixed_rep(sh.y as int);
    let x3 = fixed_rep(sh.blur as int);
    let x4 = fixed_rep(sh.spread as int);
    let cr = color_rep(sh.fill->Color_0);
    let l1 = x1.len() as int;
    let l2 = x2.len() as int;
    let l3 = x3.len() as int;
    let l4 = x4.len() as int;
    let f1 = start + l1;
    let f2 = f1 + 1 + l2;
    let f3 = f2 + 1 + l3;
    let f4 = f3 + 1 + l4;
    let end = s.len() as int;
    assert(s.len() == start + l1 + 1 + l2 + 1 + l3 + 1 + l4 + 1 + cr.len());
    assert(s.subrange(start, f1) =~= x1);
    assert(s[f1] == s.subrange(f1, f1 + 1)[0]);
    assert(s.subrange(f1, f1 + 1) =~= " "@);
    assert(s.subrange(f1 + 1, f2) =~= x2);
    assert(s[f2] == s.subrange(f2, f2 + 1)[0]);
    assert(s.subrange(f2, f2 + 1) =~= " "@);
    assert(s.subrange(f2 + 1, f3) =~= x3);
    assert(s[f3] == s.subrange(f3, f3 + 1)[0]);
    assert(s.subrange(f3, f3 + 1) =~= " "@);
    assert(s.subrange(f3 + 1, f4) =~= x4);
    assert(s[f4] == s.subrange(f4, f4 + 1)[0]);
    assert(s.subrange(f4, f4 + 1) =~= " "@);
    assert(s.subrange(f4 + 1, end) =~= cr);
    lemma_fixed_first_char(sh.x as int);
    if sh.position is Inset {
        assert(s[0] == "inset "@[0]);
    } else {
        assert(s[0] == s.subrange(start, f1)[0]);
        assert(s[0] == x1[0]);
    }
}

/// The first character of a canonical scalar is the minus sign or a
/// digit.
proof fn lemma_fixed_first_char(v: int)
    ensures
        fixed_rep(v)[0] == '-' || digit_val(fixed_rep(v)[0]) >= 0,
{
    let m = if v >= 0 { v } else { -v };
    if v >= 0 {
        lemma_dec_rep_first(m / (SCALE as int));
        assert(fixed_rep(v)[0] == dec_rep(m / (SCALE as int))[0]);
    }
}

/// Parses a canonical shadow literal, both ways exactly: every canonical
/// flat-fill shadow literal parses back to its shadow, and a successful
/// parse returns exactly the shadow whose canonical string is the input.
#[verifier::rlimit(100)]
pub fn parse_shadow(s: &String) -> (r: Option<Shadow>)
    ensures
        r matches Some(sh) ==> s@ == shadow_rep(sh) && sh.wf() && sh.has_flat_fill(),
        forall|sh: Shadow|
            sh.wf() && sh.has_flat_fill() && s@ == #[trigger] shadow_rep(sh) ==> r == Some(sh),
{
    let st = s.as_str();
    let len = st.unicode_len();
    if len == 0 {
        proof {
            assert forall|sh: Shadow|
                sh.wf() && sh.has_flat_fill() && s@ == #[trigger] shadow_rep(sh)
                implies false by {
                lemma_shadow_structure(s@, sh);
            }
        }
        return None;
    }
    let inset = st.get_char(0) == 'i';
    let start: usize = if inset {
        6
    } else {
        0
    };
    if start > len {
        proof {
            assert forall|sh: Shadow|
                sh.wf() && sh.has_flat_fill() && s@ == #[trigger] shadow_rep(sh)
                implies false by {
                lemma_shadow_structure(s@, sh);
                lemma_fixed_structure(s@, 6int, sh.x as int);
            }
        }
        return None;
    }
    let s1 = scan_fixed(st, start);
    let (x, q1) = match s1 {
        Some(q) => q,
        None => {
            proof {
                assert forall|sh: Shadow|
                    sh.wf() && sh.has_flat_fill() && s@ == #[trigger] shadow_rep(sh)
                    implies false by {
                    lemma_shadow_structure(s@, sh);
                }
            }
            return None;
        },
    };
    if q1 >= len {
        proof {
            assert forall|sh: Shadow|
                sh.wf() && sh.has_flat_fill() && s@ == #[trigger] shadow_rep(sh)
                implies false by {
                lemma_shadow_structure(s@, sh);
            }
        }
        return None;
    }
    let s2 = scan_fixed(st, q1 + 1);
    let (y, q2) = match s2 {
        Some(q) => q,
        None => {
            proof {
                assert forall|sh: Shadow|
                    sh.wf() && sh.has_flat_fill() && s@ == #[trigger] shadow_rep(sh)
                    implies false by {
                    lemma_shadow_structure(s@, sh);
                }
            }
            return None;
        },
    };
    if q2 >= len {
        proof {
            assert forall|sh: Shadow|
                sh.wf() && sh.has_flat_fill() && s@ == #[trigger] shadow_rep(sh)
                implies false by {
                lemma_shadow_structure(s@, sh);
            }
        }
        return None;
    }
    let s3 = scan_fixed(st, q2 + 1);
    let (bl, q3) = match s3 {
        Some(q) => q,
        None => {
            proof {
                assert forall|sh: Shadow|
                    sh.wf() && sh.has_flat_fill() && s@ == #[trigger] shadow_rep(sh)
                    implies false by {
                    lemma_shadow_structure(s@, sh);
                }
            }
            return None;
        },
    };
    if q3 >= len {
        proof {
            assert forall|sh: Shadow|
                sh.wf() && sh.has_flat_fill() && s@ == #[trigger] shadow_rep(sh)
                implies false by {
                lemma_shadow_structure(s@, sh);
            }
        }
        return None;
    }
    let s4 = scan_fixed(st, q3 + 1);
    let (sp, q4) = match s4 {
        Some(q) => q,
        None => {
            proof {
                assert forall|sh: Shadow|
                    sh.wf() && sh.has_flat_fill() && s@ == #[trigger] shadow_rep(sh)
                    implies false by {
                    lemma_shadow_structure(s@, sh);
                }
            }
            return None;
        },
    };
    if q4 >= len {
        proof {
            assert forall|sh: Shadow|
                sh.wf() && sh.has_flat_fill() && s@ == #[trigger] shadow_rep(sh)
                implies false by {
                lemma_shadow_structure(s@, sh);
            }
        }
        return None;
    }
    let sc = scan_color(st, q4 + 1);
    let (cc, _endc) = match sc {
        Some(q) => q,
        None => {
            proof {
                assert forall|sh: Shadow|
                    sh.wf() && sh.has_flat_fill() && s@ == #[trigger] shadow_rep(sh)
                    implies false by {
                    lemma_shadow_structure(s@, sh);
                }
            }
            return None;
        },
    };
    let sh2 = Shadow {
        position: if inset {
            ShadowPosition::Inset
        } else {
            ShadowPosition::Normal
        },
        x,
        y,
        blur: bl,
        spread: sp,
        fill: Fill::Color(cc),
    };
    proof {
        assert forall|sh: Shadow|
            sh.wf() && sh.has_flat_fill() && s@ == #[trigger] shadow_rep(sh)
            implies sh2 == sh by {
            lemma_shadow_structure(s@, sh);
            assert(sh.fill == Fill::Color(sh.fill->Color_0));
        }
    }
    let t = shadow_string(&sh2);
    if t.eq(s) {
        Some(sh2)
    } else {
        proof {
            assert forall|sh: Shadow|
                sh.wf() && sh.has_flat_fill() && s@ == #[trigger] shadow_rep(sh)
                implies false by {
                assert(sh2 == sh);
                assert(t@ == shadow_rep(sh2));
            }
        }
        None
    }
}

impl Value {
    /// A value from an external literal. A string starting with `linear`
    /// is kept as an opaque gradient descriptor, unparsed; otherwise the
    /// string is read as a color literal first, then as a shadow
    /// literal. Every canonical color or flat-fill shadow literal
    /// constructs exactly the value it serializes from; anything else
    /// yields `None`, a construction failure surfaced to the caller.
    pub fn from_literal(s: String) -> (r: Option<Value>)
        ensures
            (s@.len() >= 6 && s@.subrange(0, 6) == "linear"@) <==> r == Some(
                Value::Gradient(s),
            ),
            r matches Some(v) ==> {
                &&& v is Gradient ==> v->Gradient_0 == s
                &&& v is Color ==> s@ == color_rep(v->Color_0)
                &&& v is Shadow ==> s@ == shadow_rep(v->Shadow_0) && v->Shadow_0.wf()
                    && v->Shadow_0.has_flat_fill()
                &&& !(v is Number) && !(v is Point)
            },
            forall|c: Color| s@ == #[trigger] color_rep(c) ==> r == Some(Value::Color(c)),
            forall|sh: Shadow|
                sh.wf() && sh.has_flat_fill() && s@ == #[trigger] shadow_rep(sh) ==> r == Some(
                    Value::Shadow(sh),
                ),
    {
        proof {
            reveal_strlit("linear");
            reveal_strlit("rgb(");
            assert forall|c: Color| s@ == #[trigger] color_rep(c) implies s@.len() >= 1 && s@[0]
                == 'r' by {
                assert(color_rep(c)[0] == "rgb("@[0]);
            }
            assert forall|sh: Shadow|
                sh.wf() && sh.has_flat_fill() && s@ == #[trigger] shadow_rep(sh)
                implies s@.len() >= 1 && s@[0] != 'l' && s@[0] != 'r' by {
                lemma_shadow_structure(s@, sh);
            }
        }
        let st = s.as_str();
        let len = st.unicode_len();
        if len >= 6 {
            let is_gradient = st.get_char(0) == 'l' && st.get_char(1) == 'i' && st.get_char(2)
                == 'n' && st.get_char(3) == 'e' && st.get_char(4) == 'a' && st.get_char(5) == 'r';
            if is_gradient {
                proof {
                    assert(s@.subrange(0, 6) =~= "linear"@);
                }
                return Some(Value::Gradient(s));
            }
            proof {
                assert(!(s@.subrange(0, 6) == "linear"@)) by {
                    if s@.subrange(0, 6) == "linear"@ {
                        assert(s@[0] == s@.subrange(0, 6)[0]);
                        assert(s@[1] == s@.subrange(0, 6)[1]);
                        assert(s@[2] == s@.subrange(0, 6)[2]);
                        assert(s@[3] == s@.subrange(0, 6)[3]);
                        assert(s@[4] == s@.subrange(0, 6)[4]);
                        assert(s@[5] == s@.subrange(0, 6)[5]);
                    }
                }
            }
        }
        match parse_color(&s) {
            Some(c) => Some(Value::Color(c)),
            None => {
                match parse_shadow(&s) {
                    Some(sh) => Some(Value::Shadow(sh)),
                    None => None,
                }
            },
        }
    }
}

} // verus!
