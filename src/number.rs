use vstd::prelude::*;

verus! {

/// Number of units in one: a `Number` holds nine decimal places exactly.
pub const SCALE: i128 = 1_000_000_000;

/// A number of the language: an exact decimal with nine fractional digits,
/// stored as `raw / SCALE`.
#[derive(Clone, Copy, PartialEq, Eq, Debug, Structural)]
pub struct Number {
    pub raw: i128,
}

/// The sum of two raw values, when it fits.
pub open spec fn add_spec(a: i128, b: i128) -> Option<Number> {
    match a.checked_add(b) {
        Some(r) => Some(Number { raw: r }),
        None => None,
    }
}

/// The difference of two raw values, when it fits.
pub open spec fn sub_spec(a: i128, b: i128) -> Option<Number> {
    match a.checked_sub(b) {
        Some(r) => Some(Number { raw: r }),
        None => None,
    }
}

/// The product of two numbers, truncated to nine decimal places, when the
/// raw product fits.
pub open spec fn mul_spec(a: i128, b: i128) -> Option<Number> {
    match a.checked_mul(b) {
        Some(p) => match p.checked_div(SCALE) {
            Some(r) => Some(Number { raw: r }),
            None => None,
        },
        None => None,
    }
}

/// The quotient of two numbers, truncated to nine decimal places; none for a
/// zero divisor or when the scaled dividend does not fit.
pub open spec fn div_spec(a: i128, b: i128) -> Option<Number> {
    match a.checked_mul(SCALE) {
        Some(p) => match p.checked_div(b) {
            Some(r) => Some(Number { raw: r }),
            None => None,
        },
        None => None,
    }
}

/// The remainder of truncated division, with the sign of the dividend.
pub open spec fn rem_spec(a: i128, b: i128) -> Option<Number> {
    match a.checked_rem(b) {
        Some(r) => Some(Number { raw: r }),
        None => None,
    }
}

/// The decimal digit character for `d < 10`.
pub open spec fn digit_char(d: nat) -> char {
    ((d + 48) as u8) as char
}

/// The decimal digits of `n`, most significant first, without leading zeros.
pub open spec fn digits(n: nat) -> Seq<char>
    decreases n,
{
    if n < 10 {
        seq![digit_char(n)]
    } else {
        digits(n / 10) + seq![digit_char(n % 10)]
    }
}

/// The last `w` decimal digits of `n`, zero padded, most significant first.
pub open spec fn fixed_digits(n: nat, w: nat) -> Seq<char>
    decreases w,
{
    if w == 0 {
        Seq::empty()
    } else {
        fixed_digits(n / 10, (w - 1) as nat) + seq![digit_char(n % 10)]
    }
}

/// `s` without its trailing `'0'` characters.
pub open spec fn trim_zeros(s: Seq<char>) -> Seq<char>
    decreases s.len(),
{
    if s.len() > 0 && s.last() == '0' {
        trim_zeros(s.drop_last())
    } else {
        s
    }
}

/// The absolute value.
pub open spec fn abs(x: int) -> nat {
    if x < 0 {
        (-x) as nat
    } else {
        x as nat
    }
}

/// How a number is printed: an optional minus sign, the integer part, and
/// the fractional part without trailing zeros after a point when it is not
/// zero (`7`, `-2.5`, `0.125`).
pub open spec fn number_text(raw: int) -> Seq<char> {
    let m = abs(raw);
    let int_part = digits(m / (SCALE as nat));
    let frac = m % (SCALE as nat);
    let sign = if raw < 0 { seq!['-'] } else { Seq::<char>::empty() };
    if frac == 0 {
        sign + int_part
    } else {
        sign + int_part + seq!['.'] + trim_zeros(fixed_digits(frac, 9))
    }
}

fn digit_of(d: u128) -> (c: char)
    requires
        d < 10,
    ensures
        c == digit_char(d as nat),
{
    ((d as u8) + 48u8) as char
}

/// Appends the decimal digits of `n`.
fn push_digits(n: u128, out: &mut Vec<char>)
    ensures
        final(out)@ == old(out)@ + digits(n as nat),
    decreases n,
{
    if n < 10 {
        out.push(digit_of(n));
    } else {
        push_digits(n / 10, out);
        out.push(digit_of(n % 10));
        assert(final(out)@ =~= old(out)@ + digits(n as nat));
    }
}

/// Appends the last `w` decimal digits of `n`, zero padded.
fn push_fixed_digits(n: u128, w: u32, out: &mut Vec<char>)
    ensures
        final(out)@ == old(out)@ + fixed_digits(n as nat, w as nat),
    decreases w,
{
    if w > 0 {
        push_fixed_digits(n / 10, w - 1, out);
        out.push(digit_of(n % 10));
        assert(final(out)@ =~= old(out)@ + fixed_digits(n as nat, w as nat));
    } else {
        assert(final(out)@ =~= old(out)@ + fixed_digits(n as nat, w as nat));
    }
}

/// Removes trailing `'0'` characters after position `keep`.
fn pop_zeros(out: &mut Vec<char>, keep: usize)
    requires
        keep <= old(out)@.len(),
    ensures
        final(out)@ == old(out)@.subrange(0, keep as int) + trim_zeros(
            old(out)@.subrange(keep as int, old(out)@.len() as int),
        ),
{
    let ghost orig = out@;
    while out.len() > keep && out[out.len() - 1] == '0'
        invariant
            keep <= out@.len() <= orig.len(),
            out@ == orig.subrange(0, out@.len() as int),
            trim_zeros(orig.subrange(keep as int, orig.len() as int)) == trim_zeros(
                orig.subrange(keep as int, out@.len() as int),
            ),
        decreases out@.len(),
    {
        let ghost before = out@;
        assert(orig.subrange(keep as int, before.len() as int).drop_last() =~= orig.subrange(
            keep as int,
            before.len() - 1,
        ));
        out.pop();
    }
    assert(orig.subrange(keep as int, out@.len() as int) =~= out@.subrange(
        keep as int,
        out@.len() as int,
    ));
    assert(out@ =~= orig.subrange(0, keep as int) + orig.subrange(keep as int, out@.len() as int));
}

impl Number {
    /// The number with the integer value `n`.
    pub fn from_int(n: i64) -> (r: Number)
        ensures
            r.raw == n * SCALE,
    {
        Number { raw: (n as i128) * SCALE }
    }

    /// `self + o`, or `None` when the result is out of range.
    pub fn add(self, o: Number) -> (r: Option<Number>)
        ensures
            r == add_spec(self.raw, o.raw),
    {
        match self.raw.checked_add(o.raw) {
            Some(v) => Some(Number { raw: v }),
            None => None,
        }
    }

    /// `self - o`, or `None` when the result is out of range.
    pub fn sub(self, o: Number) -> (r: Option<Number>)
        ensures
            r == sub_spec(self.raw, o.raw),
    {
        match self.raw.checked_sub(o.raw) {
            Some(v) => Some(Number { raw: v }),
            None => None,
        }
    }

    /// `self * o`, or `None` when it is out of range.
    pub fn mul(self, o: Number) -> (r: Option<Number>)
        ensures
            r == mul_spec(self.raw, o.raw),
    {
        match self.raw.checked_mul(o.raw) {
            Some(p) => match p.checked_div(SCALE) {
                Some(v) => Some(Number { raw: v }),
                None => None,
            },
            None => None,
        }
    }

    /// `self / o`, or `None` for a zero divisor or a result out of range.
    pub fn div(self, o: Number) -> (r: Option<Number>)
        ensures
            r == div_spec(self.raw, o.raw),
    {
        match self.raw.checked_mul(SCALE) {
            Some(p) => match p.checked_div(o.raw) {
                Some(v) => Some(Number { raw: v }),
                None => None,
            },
            None => None,
        }
    }

    /// `self % o`, or `None` for a zero divisor.
    pub fn rem(self, o: Number) -> (r: Option<Number>)
        ensures
            r == rem_spec(self.raw, o.raw),
    {
        match self.raw.checked_rem(o.raw) {
            Some(v) => Some(Number { raw: v }),
            None => None,
        }
    }

    /// `-self`, or `None` for the one value whose negation is out of range.
    pub fn neg(self) -> (r: Option<Number>)
        ensures
            r == sub_spec(0, self.raw),
    {
        match 0i128.checked_sub(self.raw) {
            Some(v) => Some(Number { raw: v }),
            None => None,
        }
    }

    /// The printed form of the number.
    pub fn to_text(&self) -> (r: String)
        ensures
            r@ == number_text(self.raw as int),
    {
        let mut out: Vec<char> = Vec::new();
        let neg = self.raw < 0;
        let m: u128 = if neg {
            ((-(self.raw + 1)) as u128) + 1
        } else {
            self.raw as u128
        };
        assert(m == abs(self.raw as int));
        if neg {
            out.push('-');
        }
        let ghost sign = out@;
        let int_part = m / (SCALE as u128);
        let frac = m % (SCALE as u128);
        push_digits(int_part, &mut out);
        if frac != 0 {
            out.push('.');
            let keep = out.len();
            let ghost before = out@;
            push_fixed_digits(frac, 9, &mut out);
            pop_zeros(&mut out, keep);
            assert(out@ =~= sign + digits(int_part as nat) + seq!['.'] + trim_zeros(
                fixed_digits(frac as nat, 9),
            )) by {
                assert(before.len() == keep);
                assert((before + fixed_digits(frac as nat, 9)).subrange(0, keep as int) =~= before);
                assert((before + fixed_digits(frac as nat, 9)).subrange(
                    keep as int,
                    (before + fixed_digits(frac as nat, 9)).len() as int,
                ) =~= fixed_digits(frac as nat, 9));
            }
        }
        crate::text::string_of(out.as_slice())
    }
}

} // verus!
