use vstd::prelude::*;

verus! {

/// Why a grid could not be built.
#[derive(Debug, Clone, Copy, PartialEq, Eq, Structural)]
pub enum Vec2dError {
    /// `new` was asked for a grid without tiles.
    WidthOrHeightIs0 { width: usize, height: usize },
    /// `new_from_vec` was given an empty `Vec` or a width of zero.
    WidthOrInputLenIs0 { width: usize, input_len: usize },
    /// `new_from_vec` was given a `Vec` that does not hold whole rows.
    InputNotDivisibleByWidth { width: usize, input_len: usize },
}

/// The character of the decimal digit `d`.
pub open spec fn digit(d: nat) -> char {
    (('0' as nat) + d) as char
}

/// The decimal notation of `n`, most significant digit first, without leading zeros.
pub open spec fn decimal(n: nat) -> Seq<char>
    decreases n,
{
    if n < 10 {
        seq![digit(n)]
    } else {
        decimal(n / 10).push(digit(n % 10))
    }
}

/// The text that describes the error `e`.
pub open spec fn message_of(e: Vec2dError) -> Seq<char> {
    match e {
        Vec2dError::WidthOrHeightIs0 { width, height } => if width == 0 {
            "Width should be non-zero. Width: "@ + decimal(width as nat) + ", height: "@ + decimal(
                height as nat,
            )
        } else {
            "Height should be non-zero. Width: "@ + decimal(width as nat) + ", height: "@
                + decimal(height as nat)
        },
        Vec2dError::WidthOrInputLenIs0 { width, input_len } => if width == 0 {
            "Width should be non-zero. Width: "@ + decimal(width as nat) + ", input_len: "@
                + decimal(input_len as nat)
        } else {
            "input_len should be non-zero. Width: "@ + decimal(width as nat) + ", height: "@
                + decimal(input_len as nat)
        },
        Vec2dError::InputNotDivisibleByWidth { width, input_len } => "The input_len is not divisible by the width: "@
            + decimal(input_len as nat) + " % "@ + decimal(width as nat) + " = "@ + decimal(
            (input_len % width) as nat,
        ),
    }
}

/// Relies on String::push_str: the characters of `t` are appended to `s`.
#[verifier::external_body]
fn append(s: &mut String, t: &str)
    ensures
        final(s)@ == old(s)@ + t@,
{
    s.push_str(t);
}

/// Relies on String::push: the character `c` is appended to `s`.
#[verifier::external_body]
fn append_char(s: &mut String, c: char)
    ensures
        final(s)@ == old(s)@.push(c),
{
    s.push(c);
}

/// Appends the decimal notation of `n` to `s`.
fn append_decimal(s: &mut String, n: usize)
    ensures
        final(s)@ == old(s)@ + decimal(n as nat),
    decreases n,
{
    if n >= 10 {
        append_decimal(s, n / 10);
    }
    let d: u8 = (n % 10) as u8;
    append_char(s, (48u8 + d) as char);
    assert(final(s)@ =~= old(s)@ + decimal(n as nat));
}

impl Vec2dError {
    /// Describes the error in words.
    pub fn message(&self) -> (r: String)
        requires
            *self matches Vec2dError::InputNotDivisibleByWidth { width, .. } ==> width != 0,
        ensures
            r@ == message_of(*self),
    {
        let mut s = String::new();
        match *self {
            Vec2dError::WidthOrHeightIs0 { width, height } => {
                if width == 0 {
                    append(&mut s, "Width should be non-zero. Width: ");
                } else {
                    append(&mut s, "Height should be non-zero. Width: ");
                }
                append_decimal(&mut s, width);
                append(&mut s, ", height: ");
                append_decimal(&mut s, height);
            },
            Vec2dError::WidthOrInputLenIs0 { width, input_len } => {
                if width == 0 {
                    append(&mut s, "Width should be non-zero. Width: ");
                    append_decimal(&mut s, width);
                    append(&mut s, ", input_len: ");
                } else {
                    append(&mut s, "input_len should be non-zero. Width: ");
                    append_decimal(&mut s, width);
                    append(&mut s, ", height: ");
                }
                append_decimal(&mut s, input_len);
            },
            Vec2dError::InputNotDivisibleByWidth { width, input_len } => {
                append(&mut s, "The input_len is not divisible by the width: ");
                append_decimal(&mut s, input_len);
                append(&mut s, " % ");
                append_decimal(&mut s, width);
                append(&mut s, " = ");
                append_decimal(&mut s, input_len % width);
            },
        }
        s
    }
}

} // verus!
