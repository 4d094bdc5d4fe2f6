//! Decimal ASCII to unsigned integer conversion.
//!
//! The two readers accept a token made solely of ASCII decimal digits and
//! accumulate it digit by digit. An empty token, a non-digit byte, or a value
//! over the destination width fails with `MalformedNumber`; nothing wraps.

use vstd::prelude::*;

use crate::errors::PgmError;

verus! {

/// Whether a byte is an ASCII decimal digit.
pub open spec fn is_digit(b: u8) -> bool {
    48 <= b && b <= 57
}

/// Whether a token consists solely of ASCII decimal digits.
pub open spec fn all_digits(t: Seq<u8>) -> bool {
    forall|i: int| 0 <= i < t.len() ==> is_digit(#[trigger] t[i])
}

/// The value a token of decimal digits denotes; meaningful when
/// `all_digits(t)` holds.
pub open spec fn digits_value(t: Seq<u8>) -> int
    decreases t.len(),
{
    if t.len() == 0 {
        0
    } else {
        digits_value(t.drop_last()) * 10 + (t.last() - 48)
    }
}

/// A token of digits denotes a non-negative value.
pub proof fn lemma_digits_value_nonneg(t: Seq<u8>)
    requires
        all_digits(t),
    ensures
        digits_value(t) >= 0,
    decreases t.len(),
{
    if t.len() > 0 {
        assert(all_digits(t.drop_last()));
        lemma_digits_value_nonneg(t.drop_last());
    }
}

/// Extending a token of digits to the right never shrinks its value: every
/// prefix denotes at most the whole.
pub proof fn lemma_digits_value_prefix_le(t: Seq<u8>, k: int)
    requires
        all_digits(t),
        0 <= k <= t.len(),
    ensures
        digits_value(t.subrange(0, k)) <= digits_value(t),
    decreases t.len() - k,
{
    if k < t.len() {
        assert(t.subrange(0, k + 1).drop_last() =~= t.subrange(0, k));
        assert(all_digits(t.subrange(0, k)));
        lemma_digits_value_nonneg(t.subrange(0, k));
        lemma_digits_value_prefix_le(t, k + 1);
    } else {
        assert(t.subrange(0, k) =~= t);
    }
}

/// Reads a size field (width or height). Succeeds exactly on a non-empty
/// all-digit token whose value fits in `usize`.
pub fn parse_usize(bytes: &[u8]) -> (r: Result<usize, PgmError>)
    ensures
        match r {
            Ok(v) => bytes@.len() > 0 && all_digits(bytes@) && v as int == digits_value(bytes@),
            Err(e) => {
                &&& e == PgmError::MalformedNumber
                &&& (bytes@.len() == 0 || !all_digits(bytes@) || digits_value(bytes@)
                    > usize::MAX)
            },
        },
{
    if bytes.len() == 0 {
        return Err(PgmError::MalformedNumber);
    }
    let mut result: usize = 0;
    let mut i: usize = 0;
    while i < bytes.len()
        invariant
            0 <= i <= bytes@.len(),
            all_digits(bytes@.subrange(0, i as int)),
            result as int == digits_value(bytes@.subrange(0, i as int)),
        decreases bytes@.len() - i,
    {
        let b = bytes[i];
        if b < 48 || b > 57 {
            assert(!is_digit(bytes@[i as int]));
            return Err(PgmError::MalformedNumber);
        }
        let d = (b - 48) as usize;
        let wide: u128 = result as u128 * 10 + d as u128;
        proof {
            assert(bytes@.subrange(0, i + 1).drop_last() =~= bytes@.subrange(0, i as int));
        }
        if wide > usize::MAX as u128 {
            proof {
                if all_digits(bytes@) {
                    lemma_digits_value_prefix_le(bytes@, i + 1);
                }
            }
            return Err(PgmError::MalformedNumber);
        }
        result = wide as usize;
        i = i + 1;
    }
    proof {
        assert(bytes@.subrange(0, bytes@.len() as int) =~= bytes@);
    }
    Ok(result)
}

/// Reads a sample-width field (max value or an ASCII sample). Succeeds
/// exactly on a non-empty all-digit token whose value fits in `u16`.
pub fn parse_u16(bytes: &[u8]) -> (r: Result<u16, PgmError>)
    ensures
        match r {
            Ok(v) => bytes@.len() > 0 && all_digits(bytes@) && v as int == digits_value(bytes@),
            Err(e) => {
                &&& e == PgmError::MalformedNumber
                &&& (bytes@.len() == 0 || !all_digits(bytes@) || digits_value(bytes@) > u16::MAX)
            },
        },
{
    if bytes.len() == 0 {
        return Err(PgmError::MalformedNumber);
    }
    let mut result: u16 = 0;
    let mut i: usize = 0;
    while i < bytes.len()
        invariant
            0 <= i <= bytes@.len(),
            all_digits(bytes@.subrange(0, i as int)),
            result as int == digits_value(bytes@.subrange(0, i as int)),
        decreases bytes@.len() - i,
    {
        let b = bytes[i];
        if b < 48 || b > 57 {
            assert(!is_digit(bytes@[i as int]));
            return Err(PgmError::MalformedNumber);
        }
        let d = (b - 48) as u16;
        let wide: u32 = result as u32 * 10 + d as u32;
        proof {
            assert(bytes@.subrange(0, i + 1).drop_last() =~= bytes@.subrange(0, i as int));
        }
        if wide > u16::MAX as u32 {
            proof {
                if all_digits(bytes@) {
                    lemma_digits_value_prefix_le(bytes@, i + 1);
                }
            }
            return Err(PgmError::MalformedNumber);
        }
        result = wide as u16;
        i = i + 1;
    }
    proof {
        assert(bytes@.subrange(0, bytes@.len() as int) =~= bytes@);
    }
    Ok(result)
}

} // verus!
