//! Identifiers and clock readings, which come from the `uuid` and `chrono` crates.

use vstd::prelude::*;

verus! {

/// A point in time: whole seconds since the Unix epoch and the nanoseconds
/// within that second.
#[derive(Debug, Clone, Copy, PartialEq, Eq, Structural)]
pub struct Timestamp {
    pub secs: i64,
    pub nanos: u32,
}

/// The lower-case hexadecimal digit for `d`, which is below 16.
pub open spec fn hex_digit(d: int) -> char {
    if d < 10 {
        (48 + d) as char
    } else {
        (87 + d) as char
    }
}

/// The last `n` hexadecimal digits of `v`, most significant first.
pub open spec fn hex_digits(v: nat, n: nat) -> Seq<char>
    decreases n,
{
    if n == 0 {
        Seq::empty()
    } else {
        hex_digits(v / 16, (n - 1) as nat).push(hex_digit((v % 16) as int))
    }
}

/// The hyphenated lower-case text of the UUID whose 128-bit value is `id`:
/// its 32 hexadecimal digits, most significant first, in groups of 8, 4, 4,
/// 4 and 12 joined by `-`.
pub open spec fn uuid_text(id: u128) -> Seq<char> {
    let h = hex_digits(id as nat, 32);
    h.subrange(0, 8) + seq!['-'] + h.subrange(8, 12) + seq!['-'] + h.subrange(12, 16) + seq!['-']
        + h.subrange(16, 20) + seq!['-'] + h.subrange(20, 32)
}

/// Formats the UUID with value `id` by `uuid::Uuid::from_u128(id).to_string()`.
/// Claimed, as `uuid` 1.x shows it (big-endian bytes, each written as two
/// lower-case hex digits, hyphens after the 4th, 6th, 8th and 10th byte): the
/// text is `uuid_text(id)`.
#[verifier::external_body]
pub(crate) fn uuid_string(id: u128) -> (s: String)
    ensures
        s@ == uuid_text(id),
{
    uuid::Uuid::from_u128(id).to_string()
}

/// A fresh random (version 4) UUID from `uuid::Uuid::new_v4`, as its 128-bit
/// value. Nothing is claimed of the value: it is random.
#[verifier::external_body]
pub(crate) fn new_uuid() -> u128 {
    uuid::Uuid::new_v4().as_u128()
}

/// The current time from `chrono::Utc::now`, split into seconds and
/// nanoseconds. Nothing is claimed of the value: it is the clock's.
#[verifier::external_body]
pub(crate) fn utc_now() -> Timestamp {
    let t = chrono::Utc::now();
    Timestamp { secs: t.timestamp(), nanos: t.timestamp_subsec_nanos() }
}

} // verus!
