//! The boundary to the outside crates: percent-encoding of room names,
//! lossy UTF-8 decoding of inbound packets, the random draw of a member's
//! display color, and the wall-clock timestamp. Each item's contract is
//! believed, not proved; everything else in the crate is verified against it.

use vstd::prelude::*;

verus! {

/// What `urlencoding::encode` returns for a given character sequence: a
/// deterministic function of the input alone.
pub uninterp spec fn encoded(s: Seq<char>) -> Seq<char>;

/// What `String::from_utf8_lossy` returns for a given byte sequence: a
/// deterministic function of the bytes alone (invalid sequences are replaced,
/// never rejected).
pub uninterp spec fn lossy_decoded(b: Seq<u8>) -> Seq<char>;

/// Relies on `urlencoding::encode`: percent-encodes every byte except
/// alphanumerics and `-`, `_`, `.`, `~`; the result depends on the input alone.
#[verifier::external_body]
pub(crate) fn encode_room_name(raw: &str) -> (r: String)
    ensures
        r@ == encoded(raw@),
{
    urlencoding::encode(raw).into_owned()
}

/// Relies on `String::from_utf8_lossy`: decodes bytes as UTF-8, substituting
/// the replacement character for invalid sequences; the result depends on the
/// bytes alone.
#[verifier::external_body]
pub(crate) fn decode_lossy(b: &Vec<u8>) -> (r: String)
    ensures
        r@ == lossy_decoded(b@),
{
    String::from_utf8_lossy(b).into_owned()
}

/// Relies on `rand::Rng::gen_range` over `0..n`: returns a uniformly random
/// value of the range, which is below `n`; it panics on an empty range, so
/// `n` must be positive.
#[verifier::external_body]
pub(crate) fn random_below(n: usize) -> (r: usize)
    requires
        n >= 1,
    ensures
        r < n,
{
    rand::Rng::gen_range(&mut rand::thread_rng(), 0..n)
}

/// Relies on `chrono::Utc::now`: the current wall-clock time, formatted.
/// Nothing is promised of the result; callers state what holds whatever
/// timestamp came back.
#[verifier::external_body]
pub(crate) fn now_string() -> String {
    chrono::Utc::now().to_string()
}

} // verus!
