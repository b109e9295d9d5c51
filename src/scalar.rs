//! Reading raw scalar bytes as numbers or text, on demand.
use vstd::prelude::*;

verus! {

/// The type that a scalar was asked to be read as.
#[derive(Clone, Copy, Debug, PartialEq, Eq, Structural)]
pub enum ScalarKind {
    Unsigned,
    Signed,
    Decimal,
}

/// A scalar could not be read as the type that was asked for.
#[derive(Clone, Copy, Debug, PartialEq, Eq, Structural)]
pub enum ScalarDecodeFailure {
    Expected(ScalarKind),
}

pub open spec fn is_digit(c: u8) -> bool {
    48 <= c <= 57
}

pub open spec fn all_digits(s: Seq<u8>) -> bool {
    forall|i: int| 0 <= i < s.len() ==> is_digit(#[trigger] s[i])
}

/// The number that a run of decimal digits spells.
pub open spec fn digits_value(s: Seq<u8>) -> nat
    decreases s.len(),
{
    if s.len() == 0 {
        0
    } else {
        digits_value(s.drop_last()) * 10 + (s.last() - 48) as nat
    }
}

/// The digits of an integer after an optional leading sign.
pub open spec fn sign_stripped(b: Seq<u8>, minus_allowed: bool) -> Seq<u8> {
    if b.len() > 0 && (b[0] == 43 || (minus_allowed && b[0] == 45)) {
        b.drop_first()
    } else {
        b
    }
}

/// An unsigned integer: an optional `+` and decimal digits that fit in 64 bits.
pub open spec fn unsigned_text(b: Seq<u8>) -> Option<u64> {
    let body = sign_stripped(b, false);
    if b.len() > 0 && all_digits(body) && digits_value(body) <= u64::MAX {
        Some(digits_value(body) as u64)
    } else {
        None
    }
}

/// A signed integer: an optional `+` or `-` and decimal digits of at most `i64::MAX`.
pub open spec fn signed_text(b: Seq<u8>) -> Option<i64> {
    let body = sign_stripped(b, true);
    if b.len() > 0 && all_digits(body) && digits_value(body) <= i64::MAX {
        if b[0] == 45 {
            Some((-digits_value(body)) as i64)
        } else {
            Some(digits_value(body) as i64)
        }
    } else {
        None
    }
}

/// What the single-byte western code page decoder makes of some bytes.
pub uninterp spec fn windows1252_text(b: Seq<u8>) -> Seq<char>;

/// Relies on `jomini::Scalar::to_u64`: an optional `+`, then only ASCII digits, with the
/// value checked against overflow.
#[verifier::external_body]
fn jomini_u64(b: &[u8]) -> (r: Option<u64>)
    ensures
        r == unsigned_text(b@),
{
    jomini::Scalar::new(b).to_u64().ok()
}

/// Relies on `jomini::Scalar::to_i64`: an optional `+` or `-`, then only ASCII digits,
/// with a magnitude of at most `i64::MAX`.
#[verifier::external_body]
fn jomini_i64(b: &[u8]) -> (r: Option<i64>)
    ensures
        r == signed_text(b@),
{
    jomini::Scalar::new(b).to_i64().ok()
}

/// Bytes that decode to themselves: ASCII without a backslash, and no ASCII white space
/// at the end.
pub open spec fn plain_ascii(b: Seq<u8>) -> bool {
    &&& forall|i: int| 0 <= i < b.len() ==> (#[trigger] b[i]) < 128 && b[i] != 92
    &&& b.len() > 0 ==> !(b.last() == 32 || b.last() == 9 || b.last() == 10 || b.last() == 12
        || b.last() == 13)
}

/// Relies on `jomini::Windows1252Encoding::decode`: text from single-byte western bytes,
/// which depends on the bytes alone; trailing white space is cut, backslashes dropped,
/// and plain ASCII passes through as it stands.
#[verifier::external_body]
fn jomini_decode(b: &[u8]) -> (r: String)
    ensures
        r@ == windows1252_text(b@),
        plain_ascii(b@) ==> r@ == b@.map_values(|c: u8| c as char),
{
    jomini::Windows1252Encoding::decode(b).into_owned()
}

/// Reads a scalar as an unsigned 64-bit integer.
pub fn to_u64(b: &[u8]) -> (r: Result<u64, ScalarDecodeFailure>)
    ensures
        r == match unsigned_text(b@) {
            Some(v) => Ok::<u64, ScalarDecodeFailure>(v),
            None => Err(ScalarDecodeFailure::Expected(ScalarKind::Unsigned)),
        },
{
    match jomini_u64(b) {
        Some(v) => Ok(v),
        None => Err(ScalarDecodeFailure::Expected(ScalarKind::Unsigned)),
    }
}

/// Reads a scalar as a signed 64-bit integer.
pub fn to_i64(b: &[u8]) -> (r: Result<i64, ScalarDecodeFailure>)
    ensures
        r == match signed_text(b@) {
            Some(v) => Ok::<i64, ScalarDecodeFailure>(v),
            None => Err(ScalarDecodeFailure::Expected(ScalarKind::Signed)),
        },
{
    match jomini_i64(b) {
        Some(v) => Ok(v),
        None => Err(ScalarDecodeFailure::Expected(ScalarKind::Signed)),
    }
}

/// Reads a scalar as text in the single-byte western encoding.
pub fn to_text(b: &[u8]) -> (r: String)
    ensures
        r@ == windows1252_text(b@),
        plain_ascii(b@) ==> r@ == b@.map_values(|c: u8| c as char),
{
    jomini_decode(b)
}

} // verus!
