//! Fixed-point numbers and their decimal text.
//!
//! The rates and the fitness values of the engine are fixed-point numbers
//! with six decimal places: the integer `v` stands for `v / UNIT`.

use vstd::prelude::*;

verus! {

/// The fixed-point value of one whole.
pub const UNIT: i64 = 1_000_000;

/// The character of the decimal digit `value`.
pub open spec fn digit(value: int) -> u8 {
    (48 + value) as u8
}

/// The decimal digits of a whole number, without leading zeros.
pub open spec fn decimal(value: nat) -> Seq<u8>
    decreases value,
{
    if value < 10 {
        seq![digit(value as int)]
    } else {
        decimal(value / 10).push(digit((value % 10) as int))
    }
}

/// The last `width` decimal digits of a whole number, with leading zeros.
pub open spec fn padded(value: nat, width: nat) -> Seq<u8>
    decreases width,
{
    if width == 0 {
        Seq::empty()
    } else {
        padded(value / 10, (width - 1) as nat).push(digit((value % 10) as int))
    }
}

/// The decimal text of a fixed-point number: a minus sign where it is
/// negative, the whole part, a point and six decimal places.
pub open spec fn fixed_text(value: int) -> Seq<u8> {
    let magnitude = if value < 0 {
        -value
    } else {
        value
    };
    let sign = if value < 0 {
        seq![45u8]
    } else {
        Seq::empty()
    };
    sign + decimal((magnitude / (UNIT as int)) as nat) + seq![46u8] + padded(
        (magnitude % (UNIT as int)) as nat,
        6,
    )
}

/// Appends the decimal digits of `value` to `out`.
pub fn write_decimal(out: &mut Vec<u8>, value: u64)
    ensures
        final(out)@ == old(out)@ + decimal(value as nat),
    decreases value,
{
    if value >= 10 {
        write_decimal(out, value / 10);
    }
    out.push(48u8 + (value % 10) as u8);
    assert(out@ =~= old(out)@ + decimal(value as nat));
}

/// Appends the last `width` decimal digits of `value` to `out`.
pub fn write_padded(out: &mut Vec<u8>, value: u64, width: usize)
    ensures
        final(out)@ == old(out)@ + padded(value as nat, width as nat),
    decreases width,
{
    if width > 0 {
        write_padded(out, value / 10, width - 1);
        out.push(48u8 + (value % 10) as u8);
    }
    assert(out@ =~= old(out)@ + padded(value as nat, width as nat));
}

/// Appends the decimal text of the fixed-point number `value` to `out`.
pub fn write_fixed(out: &mut Vec<u8>, value: i64)
    ensures
        final(out)@ == old(out)@ + fixed_text(value as int),
{
    let magnitude: u64 = if value < 0 {
        out.push(45u8);
        (-(value as i128)) as u64
    } else {
        value as u64
    };
    let unit: u64 = UNIT as u64;
    write_decimal(out, magnitude / unit);
    out.push(46u8);
    write_padded(out, magnitude % unit, 6);
    assert(out@ =~= old(out)@ + fixed_text(value as int));
}

} // verus!
