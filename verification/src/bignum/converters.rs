//! The conversion layer: the textual grammar and the range guards.
//!
//! Three grammars share one reader, told apart by the first `e` marker of the
//! input: a plain decimal (`"123.456"`), scientific notation with a
//! coefficient before the `e` (`"1.23e456"`), and logarithmic notation with
//! the `e` right after the optional sign (`"e1234"`), whose exponent is the
//! stored logarithm itself. The special tokens `inf`, `infinity` and `nan`
//! (case-insensitive, the first two optionally negated) name the special
//! values directly. The split into these shapes, and both failure cases —
//! empty input, an invalid first character — are decided here, exactly;
//! turning the selected digits into a native float and taking its logarithm
//! is numeric work for the host program.

use crate::bignum::dbl::{abs_bits, dbl_lt, dbl_lt_x, is_nan_bits};
use crate::bignum::BigNum;
use vstd::prelude::*;
use vstd::string::StringSliceAdditionalSpecFns;

verus! {

/// ASCII lowering of one byte.
pub open spec fn lower_byte(c: u8) -> u8 {
    if 65 <= c && c <= 90 {
        (c + 32) as u8
    } else {
        c
    }
}

/// The byte is an `e` marker (`e` or `E`).
pub open spec fn is_e_byte(c: u8) -> bool {
    c == 101 || c == 69
}

/// The input is the token `inf`, case-insensitive.
pub open spec fn matches_inf(v: Seq<u8>) -> bool {
    v.len() == 3 && lower_byte(v[0]) == 105 && lower_byte(v[1]) == 110 && lower_byte(v[2]) == 102
}

/// The input is the token `infinity`, case-insensitive.
pub open spec fn matches_infinity(v: Seq<u8>) -> bool {
    &&& v.len() == 8
    &&& lower_byte(v[0]) == 105
    &&& lower_byte(v[1]) == 110
    &&& lower_byte(v[2]) == 102
    &&& lower_byte(v[3]) == 105
    &&& lower_byte(v[4]) == 110
    &&& lower_byte(v[5]) == 105
    &&& lower_byte(v[6]) == 116
    &&& lower_byte(v[7]) == 121
}

/// The input is a minus sign followed by `inf` or `infinity`,
/// case-insensitive.
pub open spec fn matches_neg_infinite(v: Seq<u8>) -> bool {
    v.len() >= 1 && v[0] == 45 && (matches_inf(v.skip(1)) || matches_infinity(v.skip(1)))
}

/// The input is the token `nan`, case-insensitive.
pub open spec fn matches_nan(v: Seq<u8>) -> bool {
    v.len() == 3 && lower_byte(v[0]) == 110 && lower_byte(v[1]) == 97 && lower_byte(v[2]) == 110
}

/// The position of the first `e` marker in the input, or -1 when there is
/// none.
pub open spec fn first_e(v: Seq<u8>) -> int
    decreases v.len(),
{
    if v.len() == 0 {
        -1
    } else if is_e_byte(v[0]) {
        0
    } else if first_e(v.skip(1)) == -1 {
        -1
    } else {
        first_e(v.skip(1)) + 1
    }
}

/// What [`first_e`] finds is the first `e` marker: an `e` byte with none
/// before it, or -1 when the input has no `e` byte at all.
pub proof fn lemma_first_e(v: Seq<u8>)
    ensures
        first_e(v) == -1 ==> forall|j: int| 0 <= j < v.len() ==> !is_e_byte(v[j]),
        first_e(v) != -1 ==> 0 <= first_e(v) < v.len() && is_e_byte(v[first_e(v)]) && forall|
            j: int,
        | 0 <= j < first_e(v) ==> !is_e_byte(v[j]),
    decreases v.len(),
{
    if v.len() > 0 && !is_e_byte(v[0]) {
        let w = v.skip(1);
        lemma_first_e(w);
        assert(forall|j: int| 0 <= j < w.len() ==> w[j] == #[trigger] v[j + 1]);
        if first_e(w) == -1 {
            assert forall|j: int| 0 <= j < v.len() implies !is_e_byte(v[j]) by {
                if j > 0 {
                    assert(v[j] == w[j - 1]);
                }
            }
        } else {
            assert(first_e(v) == first_e(w) + 1);
            assert(v[first_e(v)] == w[first_e(w)]);
            assert forall|j: int| 0 <= j < first_e(v) implies !is_e_byte(v[j]) by {
                if j > 0 {
                    assert(v[j] == w[j - 1]);
                }
            }
        }
    }
}

/// The shape of a numeric input: which grammar applies and where its parts
/// lie, as byte positions into the input.
#[derive(Debug, Copy, Clone, PartialEq, Eq, Structural)]
pub enum ParseShape {
    /// The token `inf` or `infinity`, optionally negated.
    Infinite { negative: bool },
    /// The token `nan`.
    NotANumber,
    /// Logarithmic notation: the `e` marker stands right after the optional
    /// sign, and the bytes from `exponent_from` on are the logarithm itself.
    LogNotation { negative: bool, exponent_from: usize },
    /// Scientific notation: the bytes in `coefficient_from..coefficient_to`
    /// are the coefficient (the leading sign already stripped), those from
    /// `exponent_from` on are the power of ten.
    SciNotation { negative: bool, coefficient_from: usize, coefficient_to: usize, exponent_from: usize },
    /// A plain decimal: the whole input is one signed number.
    PlainNotation { negative: bool },
}

/// Why an input has no shape.
#[derive(Debug, Copy, Clone, PartialEq, Eq, Structural)]
pub enum ParseFault {
    /// The input is empty.
    Empty,
    /// The first character is neither a sign, an ASCII digit, nor an `e`
    /// marker.
    InvalidFirstCharacter,
}

/// The shape of an input, over its bytes: the decision tree of
/// [`BigNum::parse_shape`].
pub open spec fn parse_shape_spec(v: Seq<u8>) -> Result<ParseShape, ParseFault> {
    if v.len() == 0 {
        Err(ParseFault::Empty)
    } else if matches_inf(v) || matches_infinity(v) {
        Ok(ParseShape::Infinite { negative: false })
    } else if matches_neg_infinite(v) {
        Ok(ParseShape::Infinite { negative: true })
    } else if matches_nan(v) {
        Ok(ParseShape::NotANumber)
    } else {
        let negative = v[0] == 45;
        let has_sign = v[0] == 45 || v[0] == 43;
        if !has_sign && !(48 <= v[0] && v[0] <= 57) && !is_e_byte(v[0]) {
            Err(ParseFault::InvalidFirstCharacter)
        } else {
            let start: int = if has_sign {
                1
            } else {
                0
            };
            let fe = first_e(v);
            if fe == -1 {
                Ok(ParseShape::PlainNotation { negative })
            } else if fe == start {
                Ok(ParseShape::LogNotation { negative, exponent_from: (fe + 1) as usize })
            } else {
                Ok(
                    ParseShape::SciNotation {
                        negative,
                        coefficient_from: start as usize,
                        coefficient_to: fe as usize,
                        exponent_from: (fe + 1) as usize,
                    },
                )
            }
        }
    }
}

/// ASCII lowering of one byte.
fn byte_to_lower(c: u8) -> (r: u8)
    ensures
        r == lower_byte(c),
{
    if c >= 65 && c <= 90 {
        c + 32
    } else {
        c
    }
}

/// Matches the bytes from `from` on against `inf`, case-insensitive.
fn bytes_match_inf(b: &[u8], from: usize) -> (r: bool)
    requires
        from <= b@.len(),
    ensures
        r == matches_inf(b@.skip(from as int)),
{
    if b.len() - from != 3 {
        return false;
    }
    let r = byte_to_lower(b[from]) == 105 && byte_to_lower(b[from + 1]) == 110 && byte_to_lower(
        b[from + 2],
    ) == 102;
    proof {
        assert(b@.skip(from as int).len() == 3);
        assert(b@.skip(from as int)[0] == b@[from as int]);
        assert(b@.skip(from as int)[1] == b@[from as int + 1]);
        assert(b@.skip(from as int)[2] == b@[from as int + 2]);
    }
    r
}

/// Matches the bytes from `from` on against `infinity`, case-insensitive.
fn bytes_match_infinity(b: &[u8], from: usize) -> (r: bool)
    requires
        from <= b@.len(),
    ensures
        r == matches_infinity(b@.skip(from as int)),
{
    if b.len() - from != 8 {
        return false;
    }
    let r = byte_to_lower(b[from]) == 105 && byte_to_lower(b[from + 1]) == 110 && byte_to_lower(
        b[from + 2],
    ) == 102 && byte_to_lower(b[from + 3]) == 105 && byte_to_lower(b[from + 4]) == 110
        && byte_to_lower(b[from + 5]) == 105 && byte_to_lower(b[from + 6]) == 116 && byte_to_lower(
        b[from + 7],
    ) == 121;
    proof {
        assert(b@.skip(from as int).len() == 8);
        assert(forall|j: int| 0 <= j < 8 ==> b@.skip(from as int)[j] == b@[from as int + j]);
    }
    r
}

impl BigNum {
    /// The raw constructor: a value `±10^e`, from the bit pattern of the
    /// logarithm `e` and the sign.
    pub fn from_exponent(exponent: u64, is_negative: bool) -> (r: BigNum)
        ensures
            r == (BigNum { is_negative, exponent }),
    {
        BigNum { is_negative, exponent }
    }

    /// Reads the shape of a numeric input: which grammar applies, where its
    /// parts lie, or which fault rules it out; see [`parse_shape_spec`] for
    /// the exact decision. The numeric parts themselves are left for the
    /// caller to evaluate.
    pub fn parse_shape(value: &str) -> (r: Result<ParseShape, ParseFault>)
        ensures
            r == parse_shape_spec(value.spec_bytes()),
    {
        let b: &[u8] = value.as_bytes();
        let n: usize = b.len();
        if n == 0 {
            return Err(ParseFault::Empty);
        }
        proof {
            assert(b@.skip(0) == b@);
        }
        if bytes_match_inf(b, 0) || bytes_match_infinity(b, 0) {
            return Ok(ParseShape::Infinite { negative: false });
        }
        if b[0] == 45 && n >= 1 && (bytes_match_inf(b, 1) || bytes_match_infinity(b, 1)) {
            return Ok(ParseShape::Infinite { negative: true });
        }
        if n == 3 && byte_to_lower(b[0]) == 110 && byte_to_lower(b[1]) == 97 && byte_to_lower(
            b[2],
        ) == 110 {
            return Ok(ParseShape::NotANumber);
        }
        let first: u8 = b[0];
        let negative: bool = first == 45;
        let has_sign: bool = first == 45 || first == 43;
        if !has_sign && !(first >= 48 && first <= 57) && !(first == 101 || first == 69) {
            return Err(ParseFault::InvalidFirstCharacter);
        }
        let start: usize = if has_sign {
            1
        } else {
            0
        };
        let mut i: usize = 0;
        let mut found: bool = false;
        while i < n && !found
            invariant
                0 <= i <= n,
                n == b@.len(),
                forall|j: int| 0 <= j < i ==> !is_e_byte(b@[j]),
                found ==> i < n && is_e_byte(b@[i as int]),
                !found ==> forall|j: int| 0 <= j < i ==> !is_e_byte(b@[j]),
            decreases n - i + (if found { 0int } else { 1int }),
        {
            if b[i] == 101 || b[i] == 69 {
                found = true;
            } else {
                i = i + 1;
            }
        }
        proof {
            lemma_first_e(b@);
            if found {
                assert(first_e(b@) == i as int);
            } else {
                assert(first_e(b@) == -1);
            }
        }
        if !found {
            return Ok(ParseShape::PlainNotation { negative });
        }
        if i == start {
            return Ok(ParseShape::LogNotation { negative, exponent_from: i + 1 });
        }
        Ok(
            ParseShape::SciNotation {
                negative,
                coefficient_from: start,
                coefficient_to: i,
                exponent_from: i + 1,
            },
        )
    }
}


/// The shape a value renders to: one of the special tokens, the fixed
/// notation handoff, a single exponential, or the recursive
/// double-exponential form for exponents of a billion decades or more.
#[derive(Debug, Copy, Clone, PartialEq, Eq, Structural)]
pub enum NotationShape {
    /// Render the token `NaN`.
    NotANumberToken,
    /// Render zero at the requested precision.
    ZeroToken,
    /// Render `inf`, with a leading minus when negative.
    InfiniteToken { negative: bool },
    /// Scientific notation only: the logarithm lies in (-3, 9), so the value
    /// renders in plain fixed notation.
    Fixed,
    /// One exponential: `coefficient e exponent` in scientific notation, or
    /// `e` followed by the logarithm in logarithmic notation.
    Single,
    /// Double exponential: the exponent itself needs scientific notation,
    /// as in `3e1.23e45` or `e1.000e200`.
    Recursive,
}

/// How a value prints by default: scientific with two digits below a hundred
/// decades, scientific without digits below a million, logarithmic with
/// three digits beyond (NaN included).
#[derive(Debug, Copy, Clone, PartialEq, Eq, Structural)]
pub enum DisplayStyle {
    /// Render as [`BigNum::sci_shape`] at this precision.
    Scientific { precision: usize },
    /// Render as [`BigNum::log_shape`] at this precision.
    Logarithmic { precision: usize },
}

/// The shape of the scientific rendering of `b`: the decision of
/// [`BigNum::sci_shape`].
pub open spec fn sci_shape_spec(b: BigNum) -> NotationShape {
    if is_nan_bits(b.exponent) {
        NotationShape::NotANumberToken
    } else if b.spec_is_zero() {
        NotationShape::ZeroToken
    } else if b.spec_is_infinite() {
        NotationShape::InfiniteToken { negative: b.is_negative }
    } else if dbl_lt(b.exponent, 0x4022_0000_0000_0000) && dbl_lt(
        0xC008_0000_0000_0000,
        b.exponent,
    ) {
        NotationShape::Fixed
    } else if abs_bits(b.exponent) < 0x41CD_CD65_0000_0000 {
        NotationShape::Single
    } else {
        NotationShape::Recursive
    }
}

/// The shape of the logarithmic rendering of `b`: the decision of
/// [`BigNum::log_shape`].
pub open spec fn log_shape_spec(b: BigNum) -> NotationShape {
    if is_nan_bits(b.exponent) {
        NotationShape::NotANumberToken
    } else if b.spec_is_zero() {
        NotationShape::ZeroToken
    } else if b.spec_is_infinite() {
        NotationShape::InfiniteToken { negative: b.is_negative }
    } else if abs_bits(b.exponent) < 0x41CD_CD65_0000_0000 {
        NotationShape::Single
    } else {
        NotationShape::Recursive
    }
}

/// The default style of `b`: the decision of [`BigNum::display_style`].
pub open spec fn display_style_spec(b: BigNum) -> DisplayStyle {
    if !is_nan_bits(b.exponent) && dbl_lt(b.exponent, 0x4059_0000_0000_0000) {
        DisplayStyle::Scientific { precision: 2 }
    } else if !is_nan_bits(b.exponent) && dbl_lt(b.exponent, 0x412E_8480_0000_0000) {
        DisplayStyle::Scientific { precision: 0 }
    } else {
        DisplayStyle::Logarithmic { precision: 3 }
    }
}

impl BigNum {
    /// Decides the shape of the scientific rendering: the special tokens
    /// first; a logarithm in (-3, 9) renders fixed; up to a billion decades,
    /// one exponential; beyond, the double-exponential form.
    pub fn sci_shape(&self) -> (r: NotationShape)
        ensures
            r == sci_shape_spec(*self),
    {
        if self.is_nan() {
            return NotationShape::NotANumberToken;
        }
        if self.is_zero() {
            return NotationShape::ZeroToken;
        }
        if self.is_infinite() {
            return NotationShape::InfiniteToken { negative: self.is_negative };
        }
        if dbl_lt_x(self.exponent, 0x4022_0000_0000_0000) && dbl_lt_x(
            0xC008_0000_0000_0000,
            self.exponent,
        ) {
            return NotationShape::Fixed;
        }
        if self.exponent % 0x8000_0000_0000_0000 < 0x41CD_CD65_0000_0000 {
            return NotationShape::Single;
        }
        NotationShape::Recursive
    }

    /// Decides the shape of the logarithmic rendering: the special tokens
    /// first; up to a billion decades the logarithm renders as one number
    /// after `e`, beyond that in the double-exponential form.
    pub fn log_shape(&self) -> (r: NotationShape)
        ensures
            r == log_shape_spec(*self),
    {
        if self.is_nan() {
            return NotationShape::NotANumberToken;
        }
        if self.is_zero() {
            return NotationShape::ZeroToken;
        }
        if self.is_infinite() {
            return NotationShape::InfiniteToken { negative: self.is_negative };
        }
        if self.exponent % 0x8000_0000_0000_0000 < 0x41CD_CD65_0000_0000 {
            return NotationShape::Single;
        }
        NotationShape::Recursive
    }

    /// Picks the default notation and precision by the size of the
    /// logarithm: scientific with two digits below a hundred, scientific
    /// without digits below a million, logarithmic with three digits beyond
    /// (NaN included).
    pub fn display_style(&self) -> (r: DisplayStyle)
        ensures
            r == display_style_spec(*self),
    {
        if !self.is_nan() && dbl_lt_x(self.exponent, 0x4059_0000_0000_0000) {
            return DisplayStyle::Scientific { precision: 2 };
        }
        if !self.is_nan() && dbl_lt_x(self.exponent, 0x412E_8480_0000_0000) {
            return DisplayStyle::Scientific { precision: 0 };
        }
        DisplayStyle::Logarithmic { precision: 3 }
    }

    /// The token NaN renders to.
    pub fn nan_token() -> (r: &'static str)
        ensures
            r@ == "NaN"@,
    {
        "NaN"
    }

    /// The token the infinities render to.
    pub fn infinite_token(negative: bool) -> (r: &'static str)
        ensures
            negative ==> r@ == "-inf"@,
            !negative ==> r@ == "inf"@,
    {
        if negative {
            "-inf"
        } else {
            "inf"
        }
    }
}

} // verus!
